use iit_scoreboard::extract::extract_events;

/// The same rendering step the pipeline applies before extraction.
fn render(body: &str) -> String {
    html2text::from_read(body.as_bytes(), usize::MAX).expect("body renders to text")
}

#[test]
fn extracts_one_record_from_plain_text() {
    let text = "Incident Type: Fire Alarm\n\nLocation: Building: Tower Hall\nSome filler line\nNotes: smoke detected\n";
    let events = extract_events(text);
    assert_eq!(events.len(), 1);
    assert_eq!(events[0].incident_type, "Fire Alarm");
    assert_eq!(events[0].location, "Tower Hall");
    assert_eq!(events[0].notes, "smoke detected");
}

#[test]
fn extracts_from_html_body() {
    let body = "<html><body><p>Incident Type: Fire Alarm</p>\
                <p>Location: Building: Tower Hall</p>\
                <p>Notes: smoke detected</p></body></html>";
    let events = extract_events(&render(body));
    assert_eq!(events.len(), 1);
    assert_eq!(events[0].incident_type, "Fire Alarm");
    assert_eq!(events[0].location, "Tower Hall");
    assert_eq!(events[0].notes, "smoke detected");
}

#[test]
fn raw_markup_without_line_breaks_matches_nothing() {
    // The same content as one unbroken line of markup: only after
    // normalization do the line breaks the template needs exist.
    let body = "<p>Incident Type: Fire Alarm</p><p>Location: X</p><p>Notes: y</p>";
    let direct = extract_events(body);
    assert_eq!(direct.len(), 0);
    let rendered = extract_events(&render(body));
    assert_eq!(rendered.len(), 1);
}

#[test]
fn extraction_is_idempotent() {
    let body = "<p>Incident Type: Elevator Entrapment</p>\
                <p>Location: Annex: North Lift</p>\
                <p>Notes: two occupants released</p>";
    let first = extract_events(&render(body));
    let second = extract_events(&render(body));
    assert_eq!(first.len(), second.len());
    for (a, b) in first.iter().zip(second.iter()) {
        assert_eq!(a.incident_type, b.incident_type);
        assert_eq!(a.location, b.location);
        assert_eq!(a.notes, b.notes);
    }
}

#[test]
fn template_labels_match_case_insensitively() {
    let text = "INCIDENT TYPE: Fire Alarm\n\nLOCATION: Hall\nNOTES: ok\n";
    let events = extract_events(text);
    assert_eq!(events.len(), 1);
    assert_eq!(events[0].incident_type, "Fire Alarm");
}

#[test]
fn extracts_many_records_in_order() {
    let text = "Incident Type: Fire Alarm\n\nLocation: A\nNotes: first\n\
                Incident Type: Entrapment\n\nLocation: B\nNotes: second\n";
    let events = extract_events(text);
    assert_eq!(events.len(), 2);
    assert_eq!(events[0].location, "A");
    assert_eq!(events[0].notes, "first");
    assert_eq!(events[1].location, "B");
    assert_eq!(events[1].notes, "second");
}

#[test]
fn document_without_template_yields_zero_records() {
    let events = extract_events(&render("<p>Nothing to see here.</p>"));
    assert!(events.is_empty());
}

#[test]
fn location_without_colon_is_kept_whole() {
    let text = "Incident Type: Fire Alarm\n\nLocation: Tower Hall\nNotes: ok\n";
    let events = extract_events(text);
    assert_eq!(events[0].location, "Tower Hall");
}

#[test]
fn location_keeps_text_after_last_colon_only() {
    let text = "Incident Type: Fire Alarm\n\nLocation: Campus: Building: Tower Hall\nNotes: ok\n";
    let events = extract_events(text);
    assert_eq!(events[0].location, "Tower Hall");
}

#[test]
fn values_are_trimmed() {
    let text = "Incident Type:   Fire Alarm  \n\nLocation:  Hall \nNotes:  all clear \n";
    let events = extract_events(text);
    assert_eq!(events[0].incident_type, "Fire Alarm");
    assert_eq!(events[0].location, "Hall");
    assert_eq!(events[0].notes, "all clear");
}

#[test]
fn values_trim_unicode_whitespace() {
    let text = "Incident Type: Fire Alarm\u{a0}\n\nLocation: Hall\nNotes: ok\n";
    let events = extract_events(text);
    assert_eq!(events[0].incident_type, "Fire Alarm");
}

#[test]
fn type_line_must_be_followed_by_location_line() {
    // A stray type label without a location line directly after its blank
    // lines does not produce a record.
    let text = "Incident Type: Fire Alarm\n\nWrong: thing\nNotes: nope\n";
    let events = extract_events(text);
    assert!(events.is_empty());
}

#[test]
fn notes_may_follow_after_intervening_content() {
    let text = "Incident Type: Fire Alarm\n\nLocation: Hall\nSeverity: low\nShift: night\nNotes: handled\n";
    let events = extract_events(text);
    assert_eq!(events.len(), 1);
    assert_eq!(events[0].notes, "handled");
}

#[test]
fn empty_valued_labels_do_not_match() {
    // Each field needs at least one character on its line.
    let text = "Incident Type:\n\nLocation: Hall\nNotes: ok\n";
    let events = extract_events(text);
    assert!(events.is_empty());
}
