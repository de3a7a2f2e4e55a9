use lib::revision::{Revision, RevisionExhausted, RevisionKey};

#[test]
fn revision_advances_from_zero() {
    let mut revision = Revision::zero();
    revision.advance().expect("advance");
    assert_eq!(revision.get(), 1);
}

#[test]
fn exhausted_revision_is_unchanged() {
    let mut revision = Revision::from_raw(u64::MAX);
    assert_eq!(revision.advance(), Err(RevisionExhausted));
    assert_eq!(revision.get(), u64::MAX);
    assert_eq!(RevisionExhausted.to_string(), "revision exhausted");
}

#[test]
fn key_round_trips_its_array() {
    let key = RevisionKey::from([Revision::zero(); 3]);
    assert_eq!(key.as_array(), &[Revision::zero(); 3]);
}

#[test]
fn key_from_new_matches_from() {
    let revisions = [Revision::from_raw(4), Revision::from_raw(9)];
    assert_eq!(RevisionKey::new(revisions), RevisionKey::from(revisions));
    assert_eq!(RevisionKey::new(revisions).as_array()[1].get(), 9);
}
