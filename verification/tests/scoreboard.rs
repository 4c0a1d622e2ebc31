use iit_scoreboard::aggregate::{aggregate, LocationStats};
use iit_scoreboard::classify::{classify, is_entrapment, is_fire_alarm};
use iit_scoreboard::extract::{extract_events, Event};
use iit_scoreboard::leaderboard::{rank, report_rows, top_k, total};

fn ev(incident_type: &str, location: &str) -> Event {
    Event {
        incident_type: incident_type.to_string(),
        location: location.to_string(),
        notes: String::new(),
    }
}

#[test]
fn classification_matches_are_independent() {
    assert_eq!(classify("Fire Alarm with Entrapment"), (true, true));
    assert_eq!(classify("Fire Alarm"), (true, false));
    assert_eq!(classify("Elevator Entrapment"), (false, true));
    assert_eq!(classify("Gas Leak"), (false, false));
}

#[test]
fn classification_is_case_insensitive() {
    assert!(is_fire_alarm("FIRE ALARM"));
    assert!(is_fire_alarm("fire alarm"));
    assert!(is_entrapment("ENTRAPMENT"));
    assert!(!is_fire_alarm("entrapment"));
}

#[test]
fn aggregation_groups_by_location() {
    let records = vec![
        ev("Fire Alarm", "Tower Hall"),
        ev("Elevator Entrapment", "Tower Hall"),
        ev("Fire Alarm", "Annex"),
        ev("Fire Alarm and Entrapment", "Tower Hall"),
    ];
    let stats = aggregate(&records);
    assert_eq!(stats.len(), 2);
    assert_eq!(stats[0].location, "Tower Hall");
    assert_eq!(stats[0].fire_alarms, 2);
    assert_eq!(stats[0].entrapments, 2);
    assert_eq!(stats[1].location, "Annex");
    assert_eq!(stats[1].fire_alarms, 1);
    assert_eq!(stats[1].entrapments, 0);
}

#[test]
fn unmatched_records_leave_counters_alone() {
    let records = vec![ev("Gas Leak", "Annex")];
    let stats = aggregate(&records);
    assert_eq!(stats.len(), 1);
    assert_eq!(stats[0].fire_alarms, 0);
    assert_eq!(stats[0].entrapments, 0);
}

#[test]
fn leaderboard_is_sorted_descending_by_total() {
    let stats = vec![
        LocationStats { location: "A".to_string(), fire_alarms: 1, entrapments: 0 },
        LocationStats { location: "B".to_string(), fire_alarms: 3, entrapments: 2 },
        LocationStats { location: "C".to_string(), fire_alarms: 0, entrapments: 2 },
    ];
    let board = rank(&stats);
    assert_eq!(board.len(), 3);
    assert_eq!(board[0].location, "B");
    assert_eq!(board[1].location, "C");
    assert_eq!(board[2].location, "A");
    for w in board.windows(2) {
        assert!(total(&w[0]) >= total(&w[1]));
    }
}

#[test]
fn equal_totals_keep_first_encounter_order() {
    let stats = vec![
        LocationStats { location: "First".to_string(), fire_alarms: 1, entrapments: 1 },
        LocationStats { location: "Second".to_string(), fire_alarms: 2, entrapments: 0 },
        LocationStats { location: "Third".to_string(), fire_alarms: 0, entrapments: 2 },
    ];
    let board = rank(&stats);
    assert_eq!(board[0].location, "First");
    assert_eq!(board[1].location, "Second");
    assert_eq!(board[2].location, "Third");
}

#[test]
fn top_k_clamps_to_available_entries() {
    let stats = vec![
        LocationStats { location: "A".to_string(), fire_alarms: 1, entrapments: 0 },
        LocationStats { location: "B".to_string(), fire_alarms: 2, entrapments: 0 },
        LocationStats { location: "C".to_string(), fire_alarms: 3, entrapments: 0 },
    ];
    let board = rank(&stats);
    let shown = top_k(&board, 10);
    assert_eq!(shown.len(), 3);
    assert_eq!(shown[0].location, "C");
}

#[test]
fn top_k_takes_the_leading_entries() {
    let stats = vec![
        LocationStats { location: "A".to_string(), fire_alarms: 1, entrapments: 0 },
        LocationStats { location: "B".to_string(), fire_alarms: 2, entrapments: 0 },
        LocationStats { location: "C".to_string(), fire_alarms: 3, entrapments: 0 },
    ];
    let board = rank(&stats);
    let shown = top_k(&board, 2);
    assert_eq!(shown.len(), 2);
    assert_eq!(shown[0].location, "C");
    assert_eq!(shown[1].location, "B");
}

#[test]
fn report_rows_flag_maxima() {
    let stats = vec![
        LocationStats { location: "A".to_string(), fire_alarms: 3, entrapments: 0 },
        LocationStats { location: "B".to_string(), fire_alarms: 1, entrapments: 2 },
    ];
    let board = rank(&stats);
    let rows = report_rows(&board);
    assert_eq!(rows.len(), 2);
    assert_eq!(rows[0].location, "A");
    assert!(rows[0].max_fire);
    assert!(!rows[0].max_entrapment);
    assert_eq!(rows[1].location, "B");
    assert!(!rows[1].max_fire);
    assert!(rows[1].max_entrapment);
}

#[test]
fn report_rows_of_empty_leaderboard() {
    let rows = report_rows(&Vec::new());
    assert!(rows.is_empty());
}

#[test]
fn end_to_end_example() {
    let body = "<p>Incident Type: Fire Alarm</p>\
                <p>Location: Building: Tower Hall</p>\
                <p>Notes: smoke detected</p>";
    let text = html2text::from_read(body.as_bytes(), usize::MAX).expect("body renders to text");
    let events = extract_events(&text);
    assert_eq!(events.len(), 1);
    assert_eq!(events[0].incident_type, "Fire Alarm");
    assert_eq!(events[0].location, "Tower Hall");
    assert_eq!(events[0].notes, "smoke detected");
    assert_eq!(classify(&events[0].incident_type), (true, false));
    let stats = aggregate(&events);
    assert_eq!(stats.len(), 1);
    assert_eq!(stats[0].location, "Tower Hall");
    assert_eq!(stats[0].fire_alarms, 1);
    assert_eq!(stats[0].entrapments, 0);
}
