use trackfetch::extract::TrackRef;
use trackfetch::resolve::{ResolveStep, Resolver};

fn t(id: u128) -> TrackRef {
    TrackRef { id }
}

/// Runs a search for track 0 whose fetches report from `catalogue`
/// (availability and alternatives by track); returns the tracks fetched and
/// the accepted one.
fn drive(catalogue: &dyn Fn(u128) -> (bool, Vec<TrackRef>)) -> (Vec<u128>, Option<u128>) {
    let mut r = Resolver::new(t(0));
    let mut fetched = Vec::new();
    let mut step = r.start();
    loop {
        match step {
            ResolveStep::Fetch(x) => {
                fetched.push(x.id);
                let (available, alternatives) = catalogue(x.id);
                step = r.on_metadata(available, &alternatives);
            }
            ResolveStep::Accept => return (fetched.clone(), fetched.last().copied()),
            ResolveStep::Fail => return (fetched, None),
        }
    }
}

#[test]
fn available_track_is_taken_at_once() {
    let (fetched, found) = drive(&|_| (true, vec![t(1)]));
    assert_eq!(fetched, vec![0]);
    assert_eq!(found, Some(0));
}

#[test]
fn no_alternatives_fails() {
    let (fetched, found) = drive(&|_| (false, vec![]));
    assert_eq!(fetched, vec![0]);
    assert_eq!(found, None);
}

#[test]
fn single_alternative_available() {
    let (fetched, found) = drive(&|id| (id == 5, if id == 0 { vec![t(5)] } else { vec![] }));
    assert_eq!(fetched, vec![0, 5]);
    assert_eq!(found, Some(5));
}

#[test]
fn single_alternative_unavailable() {
    let (fetched, found) = drive(&|id| (false, if id == 0 { vec![t(5)] } else { vec![] }));
    assert_eq!(fetched, vec![0, 5]);
    assert_eq!(found, None);
}

#[test]
fn three_alternatives_first_available() {
    let (fetched, found) = drive(&|id| (id == 1 || id == 3, if id == 0 { vec![t(1), t(2), t(3)] } else { vec![] }));
    assert_eq!(fetched, vec![0, 1]);
    assert_eq!(found, Some(1));
}

#[test]
fn three_alternatives_middle_available() {
    let (fetched, found) = drive(&|id| (id == 2, if id == 0 { vec![t(1), t(2), t(3)] } else { vec![] }));
    assert_eq!(fetched, vec![0, 1, 2]);
    assert_eq!(found, Some(2));
}

#[test]
fn three_alternatives_last_available() {
    let (fetched, found) = drive(&|id| (id == 3, if id == 0 { vec![t(1), t(2), t(3)] } else { vec![] }));
    assert_eq!(fetched, vec![0, 1, 2, 3]);
    assert_eq!(found, Some(3));
}

#[test]
fn three_alternatives_none_available() {
    let (fetched, found) = drive(&|_| (false, vec![t(1), t(2), t(3)]));
    assert_eq!(fetched, vec![0, 1, 2, 3]);
    assert_eq!(found, None);
}

#[test]
fn alternatives_of_alternatives_are_not_walked() {
    let (fetched, found) = drive(&|id| match id {
        0 => (false, vec![t(1)]),
        1 => (false, vec![t(9)]),
        _ => (true, vec![]),
    });
    assert_eq!(fetched, vec![0, 1]);
    assert_eq!(found, None);
}

#[test]
fn substitution_is_reported() {
    let mut r = Resolver::new(t(0));
    assert!(!r.substituted());
    assert_eq!(r.on_metadata(false, &vec![t(4)]), ResolveStep::Fetch(t(4)));
    assert!(r.substituted());
    assert_eq!(r.on_metadata(true, &vec![]), ResolveStep::Accept);
}
