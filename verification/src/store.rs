//! The storage model and the three fixed query operations.
//!
//! `Storage` models the database state reached through one leased
//! connection: the pre-existing location rows, the vote rows, and the
//! counters the storage itself assigns (vote identity and timestamp). The
//! three operations of the query executor — list the locations, fetch one
//! location by its identifier, insert one vote — are stated and proved
//! against this model; the live database is held to the same contracts by
//! the referential-integrity and primary-key constraints its schema
//! declares.

use vstd::prelude::*;
use crate::errors::ServiceError;
use crate::ids::LocationId;

verus! {

/// One location record: an identifier, a title, and the prompt shown to
/// voters. The service only reads these rows; they are written by external
/// administration.
#[derive(Debug)]
pub struct Location {
    pub id: LocationId,
    pub title: String,
    pub prompt: String,
}

impl Clone for Location {
    fn clone(&self) -> (r: Self)
        ensures
            r == *self,
    {
        Location { id: self.id, title: self.title.clone(), prompt: self.prompt.clone() }
    }
}

/// The body of a vote-submission request, after the transport has decoded
/// it: the voter's stance, an optional comment, and the location voted on.
#[derive(Debug)]
pub struct AddVoteBody {
    pub agrees: bool,
    pub comment: Option<String>,
    pub location_id: LocationId,
}

/// One vote ready to insert: the request body joined with the User-Agent
/// header of the request that carried it. Storage assigns the rest.
#[derive(Debug)]
pub struct NewVote {
    pub user_agent: String,
    pub agrees: bool,
    pub comment: Option<String>,
    pub location_id: LocationId,
}

impl NewVote {
    /// Joins a decoded request body with the request's User-Agent header.
    pub fn from_body(body: AddVoteBody, user_agent: String) -> (v: NewVote)
        ensures
            v.user_agent == user_agent,
            v.agrees == body.agrees,
            v.comment == body.comment,
            v.location_id == body.location_id,
    {
        NewVote {
            user_agent,
            agrees: body.agrees,
            comment: body.comment,
            location_id: body.location_id,
        }
    }
}

/// One stored vote row, with the identity and timestamp storage assigned
/// on insertion. Rows are never mutated or deleted by this service.
#[derive(Debug)]
pub struct VoteRow {
    pub id: u64,
    pub user_agent: String,
    pub agrees: bool,
    pub comment: Option<String>,
    pub location_id: LocationId,
    pub created_at: u64,
}

/// The first stored location carrying the identifier, if any.
pub open spec fn find_location(locs: Seq<Location>, id: LocationId) -> Option<Location>
    decreases locs.len(),
{
    if locs.len() == 0 {
        None
    } else if locs[0].id == id {
        Some(locs[0])
    } else {
        find_location(locs.drop_first(), id)
    }
}

/// Whether some stored location carries the identifier.
pub open spec fn contains_location(locs: Seq<Location>, id: LocationId) -> bool {
    find_location(locs, id) is Some
}

/// What the lookup operation returns: the stored record when the
/// identifier is present, the distinct not-found outcome when it is
/// absent — never a generic failure.
pub open spec fn get_location_result(locs: Seq<Location>, id: LocationId) -> Result<
    Location,
    ServiceError,
> {
    match find_location(locs, id) {
        Some(l) => Ok(l),
        None => Err(ServiceError::NotFound),
    }
}

/// How many stored votes reference the location.
pub open spec fn votes_for(votes: Seq<VoteRow>, id: LocationId) -> nat {
    votes.filter(|v: VoteRow| v.location_id == id).len()
}

/// The database state behind a leased connection.
pub struct Storage {
    pub locations: Vec<Location>,
    pub votes: Vec<VoteRow>,
    pub next_vote_id: u64,
    pub now: u64,
}

impl Storage {
    /// The invariants the schema enforces: location identifiers are unique
    /// (primary key), vote identifiers are unique and below the assignment
    /// counter, and every vote references an existing location
    /// (referential integrity).
    pub open spec fn wf(self) -> bool {
        &&& forall|i: int, k: int|
            0 <= i < k < self.locations@.len() ==> (#[trigger] self.locations@[i]).id != (
            #[trigger] self.locations@[k]).id
        &&& forall|k: int| 0 <= k < self.votes@.len() ==> (#[trigger] self.votes@[k]).id
            < self.next_vote_id
        &&& forall|i: int, k: int|
            0 <= i < k < self.votes@.len() ==> (#[trigger] self.votes@[i]).id != (
            #[trigger] self.votes@[k]).id
        &&& forall|k: int|
            0 <= k < self.votes@.len() ==> contains_location(
                self.locations@,
                (#[trigger] self.votes@[k]).location_id,
            )
    }

    /// A storage with no rows.
    pub fn new() -> (s: Storage)
        ensures
            s.locations@.len() == 0,
            s.votes@.len() == 0,
            s.next_vote_id == 0,
            s.now == 0,
            s.wf(),
    {
        Storage { locations: Vec::new(), votes: Vec::new(), next_vote_id: 0, now: 0 }
    }

    /// The full scan behind the listing endpoint: every stored location,
    /// in storage order. The count equals the number of rows at call time.
    pub fn list_locations(&self) -> (r: Vec<Location>)
        ensures
            r@ == self.locations@,
    {
        let mut r: Vec<Location> = Vec::new();
        let n = self.locations.len();
        let mut i: usize = 0;
        while i < n
            invariant
                n == self.locations@.len(),
                0 <= i <= n,
                r@ == self.locations@.subrange(0, i as int),
            decreases n - i,
        {
            r.push(self.locations[i].clone());
            proof {
                assert(r@ =~= self.locations@.subrange(0, i + 1));
            }
            i += 1;
        }
        proof {
            assert(r@ =~= self.locations@);
        }
        r
    }

    /// The exact-match lookup behind the single-location endpoint: the
    /// stored record for a present identifier, the distinct not-found
    /// outcome for an absent one.
    pub fn get_location(&self, id: LocationId) -> (r: Result<Location, ServiceError>)
        ensures
            r == get_location_result(self.locations@, id),
    {
        match find_index(&self.locations, id) {
            Some(i) => Ok(self.locations[i].clone()),
            None => Err(ServiceError::NotFound),
        }
    }

    /// The single-row insert behind the voting endpoint. Succeeds exactly
    /// when the referenced location exists; then storage assigns the next
    /// vote identity and the current timestamp and appends one row,
    /// raising that location's vote count by exactly one and no other's.
    /// When the location is absent the insert violates referential
    /// integrity, the distinct constraint-violation outcome comes back,
    /// and storage is unchanged.
    pub fn add_vote(&mut self, vote: NewVote) -> (r: Result<(), ServiceError>)
        requires
            old(self).next_vote_id < u64::MAX,
        ensures
            r is Ok <==> contains_location(old(self).locations@, vote.location_id),
            r is Ok ==> final(self).votes@ == old(self).votes@.push(
                (VoteRow {
                    id: old(self).next_vote_id,
                    user_agent: vote.user_agent,
                    agrees: vote.agrees,
                    comment: vote.comment,
                    location_id: vote.location_id,
                    created_at: old(self).now,
                }),
            ) && final(self).next_vote_id == old(self).next_vote_id + 1,
            r is Ok ==> votes_for(final(self).votes@, vote.location_id) == votes_for(
                old(self).votes@,
                vote.location_id,
            ) + 1,
            r is Ok ==> forall|other: LocationId|
                other != vote.location_id ==> votes_for(final(self).votes@, other) == votes_for(
                    old(self).votes@,
                    other,
                ),
            r is Err ==> r == Err::<(), ServiceError>(ServiceError::ConstraintViolation) && *final(self)
                == *old(self),
            final(self).locations@ == old(self).locations@,
            final(self).now == old(self).now,
            old(self).wf() ==> final(self).wf(),
    {
        match find_index(&self.locations, vote.location_id) {
            None => Err(ServiceError::ConstraintViolation),
            Some(_) => {
                let row = VoteRow {
                    id: self.next_vote_id,
                    user_agent: vote.user_agent,
                    agrees: vote.agrees,
                    comment: vote.comment,
                    location_id: vote.location_id,
                    created_at: self.now,
                };
                proof {
                    lemma_vote_count_after_insert(self.votes@, row);
                }
                self.votes.push(row);
                self.next_vote_id = self.next_vote_id + 1;
                Ok(())
            },
        }
    }
}

/// The index of the first stored location carrying the identifier.
fn find_index(locs: &Vec<Location>, id: LocationId) -> (r: Option<usize>)
    ensures
        match r {
            Some(i) => i < locs@.len() && locs@[i as int].id == id && find_location(locs@, id)
                == Some(locs@[i as int]),
            None => find_location(locs@, id) is None,
        },
{
    let n = locs.len();
    let mut i: usize = 0;
    proof {
        assert(locs@.skip(0) =~= locs@);
    }
    while i < n
        invariant
            n == locs@.len(),
            0 <= i <= n,
            find_location(locs@, id) == find_location(locs@.skip(i as int), id),
            forall|k: int| 0 <= k < i ==> (#[trigger] locs@[k]).id != id,
        decreases n - i,
    {
        if locs[i].id == id {
            proof {
                lemma_find_at_head(locs@, id, i as int);
            }
            return Some(i);
        }
        proof {
            lemma_find_skip_one(locs@, id, i as int);
        }
        i += 1;
    }
    proof {
        assert(locs@.skip(n as int) =~= Seq::<Location>::empty());
    }
    None
}

proof fn lemma_find_at_head(s: Seq<Location>, id: LocationId, i: int)
    requires
        0 <= i < s.len(),
        s[i].id == id,
    ensures
        find_location(s.skip(i), id) == Some(s[i]),
{
    assert(s.skip(i)[0] == s[i]);
}

proof fn lemma_find_skip_one(s: Seq<Location>, id: LocationId, i: int)
    requires
        0 <= i < s.len(),
        s[i].id != id,
    ensures
        find_location(s.skip(i), id) == find_location(s.skip(i + 1), id),
{
    assert(s.skip(i)[0] == s[i]);
    assert(s.skip(i).drop_first() =~= s.skip(i + 1));
}

/// Appending one vote row raises the referenced location's vote count by
/// exactly one, and no other location's count at all — whatever the row
/// holds besides its location reference, so in particular whether its
/// comment is present or absent.
pub proof fn lemma_vote_count_after_insert(votes: Seq<VoteRow>, row: VoteRow)
    ensures
        votes_for(votes.push(row), row.location_id) == votes_for(votes, row.location_id) + 1,
        forall|other: LocationId|
            other != row.location_id ==> votes_for(votes.push(row), other) == votes_for(
                votes,
                other,
            ),
{
    assert(votes.push(row).drop_last() =~= votes);
    assert(votes_for(votes.push(row), row.location_id) == votes_for(votes, row.location_id)
        + 1) by {
        reveal_with_fuel(Seq::<_>::filter, 2);
    }
    assert forall|other: LocationId| other != row.location_id implies votes_for(
        votes.push(row),
        other,
    ) == votes_for(votes, other) by {
        reveal_with_fuel(Seq::<_>::filter, 2);
    }
}

/// The lookup is exact in both directions: a present identifier yields
/// precisely the stored record, and an absent one yields the not-found
/// outcome, which the error translator maps to the not-found status and
/// never to the internal-error status.
pub proof fn lemma_lookup_exactness(locs: Seq<Location>, id: LocationId)
    ensures
        contains_location(locs, id) ==> get_location_result(locs, id) == Ok::<
            Location,
            ServiceError,
        >(find_location(locs, id)->0),
        !contains_location(locs, id) ==> get_location_result(locs, id) == Err::<
            Location,
            ServiceError,
        >(ServiceError::NotFound) && crate::errors::status_of(ServiceError::NotFound) == 404
            && crate::errors::status_of(ServiceError::NotFound) != 500,
{
}

} // verus!
