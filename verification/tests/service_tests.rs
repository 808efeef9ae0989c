use vote_service::errors::{startup_message, translate, ServiceError, StartupError};
use vote_service::ids::LocationId;
use vote_service::store::{AddVoteBody, Location, NewVote, Storage};

const PARK_ID: &str = "11111111-1111-1111-1111-111111111111";
const ABSENT_ID: &str = "00000000-0000-0000-0000-000000000000";

fn parse_id(s: &str) -> LocationId {
    LocationId::parse(s.as_bytes()).expect("canonical identifier")
}

fn seeded_storage() -> Storage {
    let mut s = Storage::new();
    s.locations.push(Location {
        id: parse_id(PARK_ID),
        title: "Park".to_string(),
        prompt: "Do you like this park?".to_string(),
    });
    s
}

fn count_votes_for(s: &Storage, id: LocationId) -> usize {
    s.votes.iter().filter(|v| v.location_id == id).count()
}

#[test]
fn get_location_returns_the_stored_record() {
    let s = seeded_storage();
    let got = s.get_location(parse_id(PARK_ID)).expect("present id");
    assert_eq!(got.title, "Park");
    assert_eq!(got.prompt, "Do you like this park?");
    assert_eq!(got.id, parse_id(PARK_ID));
}

#[test]
fn get_location_absent_is_not_found_never_internal() {
    let s = seeded_storage();
    let err = s.get_location(parse_id(ABSENT_ID)).expect_err("absent id");
    assert_eq!(err, ServiceError::NotFound);
    let outcome = translate(&err);
    assert_eq!(outcome.status, 404);
    assert_ne!(outcome.status, 500);
}

#[test]
fn list_locations_count_matches_rows() {
    let mut s = seeded_storage();
    assert_eq!(s.list_locations().len(), 1);
    s.locations.push(Location {
        id: parse_id("22222222-2222-2222-2222-222222222222"),
        title: "Pier".to_string(),
        prompt: "Do you like this pier?".to_string(),
    });
    let listed = s.list_locations();
    assert_eq!(listed.len(), 2);
    assert_eq!(listed[0].title, "Park");
    assert_eq!(listed[1].title, "Pier");
}

#[test]
fn add_vote_with_comment_raises_count_by_one() {
    let mut s = seeded_storage();
    let park = parse_id(PARK_ID);
    let before = count_votes_for(&s, park);
    let body = AddVoteBody { agrees: true, comment: Some("Nice".to_string()), location_id: park };
    let vote = NewVote::from_body(body, "test-agent".to_string());
    s.add_vote(vote).expect("existing location");
    assert_eq!(count_votes_for(&s, park), before + 1);
}

#[test]
fn add_vote_without_comment_raises_count_by_one() {
    let mut s = seeded_storage();
    let park = parse_id(PARK_ID);
    let body = AddVoteBody { agrees: false, comment: None, location_id: park };
    let vote = NewVote::from_body(body, "test-agent".to_string());
    s.add_vote(vote).expect("existing location");
    assert_eq!(count_votes_for(&s, park), 1);
    assert_eq!(s.votes[0].comment, None);
    assert!(!s.votes[0].agrees);
}

#[test]
fn add_vote_leaves_other_locations_counts_alone() {
    let mut s = seeded_storage();
    let pier_id = parse_id("22222222-2222-2222-2222-222222222222");
    s.locations.push(Location {
        id: pier_id,
        title: "Pier".to_string(),
        prompt: "Do you like this pier?".to_string(),
    });
    let body = AddVoteBody { agrees: true, comment: None, location_id: parse_id(PARK_ID) };
    s.add_vote(NewVote::from_body(body, "test-agent".to_string())).expect("existing location");
    assert_eq!(count_votes_for(&s, pier_id), 0);
    assert_eq!(count_votes_for(&s, parse_id(PARK_ID)), 1);
}

#[test]
fn add_vote_for_absent_location_is_a_distinct_error() {
    let mut s = seeded_storage();
    let body = AddVoteBody { agrees: true, comment: None, location_id: parse_id(ABSENT_ID) };
    let err = s
        .add_vote(NewVote::from_body(body, "test-agent".to_string()))
        .expect_err("absent location");
    assert_eq!(err, ServiceError::ConstraintViolation);
    assert_eq!(s.votes.len(), 0);
    assert_eq!(translate(&err).status, 500);
}

#[test]
fn storage_assigns_vote_identity_and_timestamp() {
    let mut s = seeded_storage();
    s.now = 42;
    let park = parse_id(PARK_ID);
    let first = AddVoteBody { agrees: true, comment: None, location_id: park };
    let second = AddVoteBody { agrees: false, comment: Some("meh".to_string()), location_id: park };
    s.add_vote(NewVote::from_body(first, "a".to_string())).expect("existing location");
    s.add_vote(NewVote::from_body(second, "b".to_string())).expect("existing location");
    assert_eq!(s.votes[0].id, 0);
    assert_eq!(s.votes[1].id, 1);
    assert_ne!(s.votes[0].id, s.votes[1].id);
    assert_eq!(s.votes[0].created_at, 42);
    assert_eq!(s.next_vote_id, 2);
}

#[test]
fn scenario_park_vote_round_trip() {
    let mut s = seeded_storage();
    let park = parse_id(PARK_ID);

    let got = s.get_location(park).expect("seeded location");
    assert_eq!(String::from_utf8(got.id.canonical_bytes()).unwrap(), PARK_ID);
    assert_eq!(got.title, "Park");
    assert_eq!(got.prompt, "Do you like this park?");

    let missing = s.get_location(parse_id(ABSENT_ID)).expect_err("not seeded");
    assert_eq!(translate(&missing).status, 404);

    let body = AddVoteBody { agrees: true, comment: Some("Nice".to_string()), location_id: park };
    s.add_vote(NewVote::from_body(body, "test-agent".to_string())).expect("existing location");
    assert_eq!(s.votes.len(), 1);
    assert_eq!(s.votes[0].user_agent, "test-agent");
    assert!(s.votes[0].agrees);
    assert_eq!(s.votes[0].comment.as_deref(), Some("Nice"));
    assert_eq!(s.votes[0].location_id, park);
}

#[test]
fn translate_maps_each_failure_kind() {
    assert_eq!(translate(&ServiceError::NotFound).status, 404);
    assert_eq!(translate(&ServiceError::NotFound).body, "Not found");
    for e in [
        ServiceError::PoolExhausted,
        ServiceError::ConnectionFailed,
        ServiceError::ConstraintViolation,
        ServiceError::QueryFailed,
    ] {
        let outcome = translate(&e);
        assert_eq!(outcome.status, 500);
        assert_eq!(outcome.body, "Internal server error");
    }
}

#[test]
fn startup_failures_have_fixed_messages() {
    assert_eq!(
        startup_message(&StartupError::MissingConfig),
        "Env variable DATABASE_URL must be set"
    );
    assert_eq!(startup_message(&StartupError::MigrationFailed), "Failed to run migrations");
    assert_eq!(startup_message(&StartupError::TrustStoreFailed), "Certs not loadable");
}
