use iit_scoreboard::aggregate::aggregate;
use iit_scoreboard::dates::Date;
use iit_scoreboard::document::{Document, DocumentCollection};
use iit_scoreboard::extract::extract_events;
use iit_scoreboard::fetch::{collect_outcomes, feed_url, DateOutcome, FetchScheduler};
use iit_scoreboard::leaderboard::rank;

fn d(y: u32, m: u32, day: u32) -> Date {
    Date::new(y, m, day).unwrap()
}

fn doc(date: Date, body: &str) -> Document {
    Document { date, body: body.to_string() }
}

#[test]
fn feed_url_pads_date_components() {
    let url = feed_url(&d(2024, 1, 6));
    assert_eq!(url, "https://blogs.iit.edu/public_safety/2024/01/06/feed/");
    let url = feed_url(&d(987, 11, 30));
    assert_eq!(url, "https://blogs.iit.edu/public_safety/0987/11/30/feed/");
}

#[test]
fn scheduler_bounds_in_flight_retrievals() {
    let mut s = FetchScheduler::new(2, 5);
    assert!(s.can_start());
    s.start();
    assert!(s.can_start());
    s.start();
    // Both permits taken: nothing may start until one retrieval finishes.
    assert!(!s.can_start());
    s.finish();
    assert!(s.can_start());
    s.start();
    s.finish();
    s.finish();
    s.start();
    s.start();
    s.finish();
    s.finish();
    assert!(!s.can_start());
    assert!(s.all_done());
}

#[test]
fn merge_sorts_by_publish_date() {
    let collection = DocumentCollection::new();
    let fresh = vec![
        doc(d(2024, 1, 3), "c"),
        doc(d(2024, 1, 1), "a"),
        doc(d(2024, 1, 2), "b"),
    ];
    let merged = collection.merge(fresh);
    let bodies: Vec<&str> = merged.docs.iter().map(|x| x.body.as_str()).collect();
    assert_eq!(bodies, vec!["a", "b", "c"]);
}

#[test]
fn merge_keeps_old_before_new_on_equal_dates() {
    let collection = DocumentCollection::new();
    let merged = collection.merge(vec![doc(d(2024, 1, 1), "old")]);
    let merged = merged.merge(vec![doc(d(2024, 1, 1), "new")]);
    let bodies: Vec<&str> = merged.docs.iter().map(|x| x.body.as_str()).collect();
    assert_eq!(bodies, vec!["old", "new"]);
}

#[test]
fn merge_interleaves_across_runs() {
    let collection = DocumentCollection::new();
    let merged = collection.merge(vec![doc(d(2024, 1, 2), "b"), doc(d(2024, 1, 4), "dd")]);
    let merged = merged.merge(vec![doc(d(2024, 1, 3), "c"), doc(d(2024, 1, 1), "a")]);
    let bodies: Vec<&str> = merged.docs.iter().map(|x| x.body.as_str()).collect();
    assert_eq!(bodies, vec!["a", "b", "c", "dd"]);
}

#[test]
fn max_date_is_the_newest_document() {
    let collection = DocumentCollection::new();
    assert!(collection.max_date().is_none());
    let merged = collection.merge(vec![doc(d(2024, 1, 5), "x"), doc(d(2024, 1, 2), "y")]);
    let max = merged.max_date().unwrap();
    assert_eq!((max.year, max.month, max.day), (2024, 1, 5));
}

#[test]
fn one_failed_date_among_ten_spares_the_rest() {
    let mut outcomes = Vec::new();
    for day in 1..=10u32 {
        let date = d(2024, 1, day);
        if day == 7 {
            outcomes.push(DateOutcome { date, docs: None });
        } else {
            let body = format!(
                "Incident Type: Fire Alarm\n\nLocation: Hall {}\nNotes: drill\n",
                day
            );
            outcomes.push(DateOutcome { date, docs: Some(vec![doc(date, &body)]) });
        }
    }
    let (docs, failures) = collect_outcomes(&outcomes);
    assert_eq!(docs.len(), 9);
    assert_eq!(failures.len(), 1);
    assert_eq!(failures[0].day, 7);

    let merged = DocumentCollection::new().merge(docs);
    assert_eq!(merged.docs.len(), 9);
    let mut events = Vec::new();
    for document in &merged.docs {
        events.extend(extract_events(&document.body));
    }
    let stats = aggregate(&events);
    let board = rank(&stats);
    assert_eq!(board.len(), 9);
    for entry in &board {
        assert_eq!(entry.fire_alarms, 1);
        assert!(!entry.location.contains('7'));
    }
}

#[test]
fn collect_outcomes_keeps_document_order_within_a_date() {
    let date = d(2024, 2, 1);
    let outcomes = vec![DateOutcome {
        date,
        docs: Some(vec![doc(date, "first"), doc(date, "second")]),
    }];
    let (docs, failures) = collect_outcomes(&outcomes);
    assert!(failures.is_empty());
    let bodies: Vec<&str> = docs.iter().map(|x| x.body.as_str()).collect();
    assert_eq!(bodies, vec!["first", "second"]);
}
