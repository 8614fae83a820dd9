//! The client's side of the server: the requests it sends, each as the
//! arguments it carries, and lookups in the rows of tables it keeps.
use vstd::prelude::*;
use crate::arena::{ShopSlot, TeamSlot, Fusion};
use crate::world::first_index;
use crate::world::lemma_first_index;

verus! {

/// The request that adds a ladder of levels for the user.
#[derive(Debug)]
pub struct AddUserLadderArgs {
    pub levels: Vec<String>,
}

/// The request that ends the building of the user's ladder.
#[derive(Clone, Copy, Debug, PartialEq, Eq, Structural)]
pub struct FinishBuildingLadderArgs {}

/// The request that starts an arena run.
#[derive(Clone, Copy, Debug, PartialEq, Eq, Structural)]
pub struct RunStartArgs {}

/// The request that reports the result of the run's battle.
#[derive(Clone, Copy, Debug, PartialEq, Eq, Structural)]
pub struct RunSubmitResultArgs {
    pub win: bool,
}

/// The request that changes the user's password.
#[derive(Debug)]
pub struct SetPasswordArgs {
    pub old_pass: String,
    pub new_pass: String,
}

/// The request that adds a ladder of `levels`.
pub fn add_user_ladder(levels: Vec<String>) -> (r: AddUserLadderArgs)
    ensures
        r.levels == levels,
{
    AddUserLadderArgs { levels }
}

/// The request that ends the building of the ladder.
pub fn finish_building_ladder() -> (r: FinishBuildingLadderArgs)
    ensures
        r == (FinishBuildingLadderArgs {}),
{
    FinishBuildingLadderArgs {}
}

/// The request that starts a run.
pub fn run_start() -> (r: RunStartArgs)
    ensures
        r == (RunStartArgs {}),
{
    RunStartArgs {}
}

/// The request that reports whether the battle was won.
pub fn run_submit_result(win: bool) -> (r: RunSubmitResultArgs)
    ensures
        r == (RunSubmitResultArgs { win }),
{
    RunSubmitResultArgs { win }
}

/// The request that replaces the password `old_pass` by `new_pass`.
pub fn set_password(old_pass: String, new_pass: String) -> (r: SetPasswordArgs)
    ensures
        r.old_pass == old_pass,
        r.new_pass == new_pass,
{
    SetPasswordArgs { old_pass, new_pass }
}

/// A row of the table of runs, with the units of its fusion of type `U`.
#[derive(Debug)]
pub struct Run<U> {
    pub id: u64,
    pub user_id: u64,
    pub team: Vec<TeamSlot>,
    pub shop: Vec<ShopSlot>,
    pub fusion: Option<Fusion<U>>,
    pub round: u32,
    pub last_updated: u64,
}

/// A row of the archive of finished runs, with its team's units of type `U`.
#[derive(Debug)]
pub struct ArenaArchive<U> {
    pub id: u64,
    pub user_id: u64,
    pub round: u32,
    pub wins: u32,
    pub loses: u32,
    pub team: Vec<U>,
    pub timestamp: u64,
}

/// A row of the table of users.
#[derive(Debug)]
pub struct User {
    pub id: u64,
    pub name: String,
    pub identities: Vec<[u8; 32]>,
    pub pass_hash: Option<String>,
    pub online: bool,
    pub last_login: u64,
}

impl User {
    /// The first user with the given id.
    pub fn filter_by_id(rows: &Vec<User>, id: u64) -> (r: Option<&User>)
        ensures
            match r {
                Some(row) => first_row(rows@, |row: User| row.id == id) == Some(*row),
                None => first_row(rows@, |row: User| row.id == id) is None,
            },
    {
        let ghost p = |row: User| row.id == id;
        proof {
            lemma_first_index(rows@, p);
        }
        let mut i: usize = 0;
        while i < rows.len()
            invariant
                0 <= i <= rows@.len(),
                p == (|row: User| row.id == id),
                first_index(rows@, p) == -1 || i <= first_index(rows@, p),
                first_index(rows@, p) >= 0 ==> p(rows@[first_index(rows@, p)]),
                forall|j: int| 0 <= j < rows@.len() && (first_index(rows@, p) == -1 || j < first_index(rows@, p)) ==> !p(#[trigger] rows@[j]),
            decreases rows.len() - i,
        {
            if rows[i].id == id {
                assert(p(rows@[i as int]));
                return Some(&rows[i]);
            }
            i = i + 1;
        }
        None
    }
}

/// The first row found by `f`, or none.
pub open spec fn first_row<T>(rows: Seq<T>, f: spec_fn(T) -> bool) -> Option<T> {
    let i = first_index(rows, f);
    if i >= 0 { Some(rows[i]) } else { None }
}

impl<U> Run<U> {
    /// The first run with the given id.
    pub fn filter_by_id(rows: &Vec<Run<U>>, id: u64) -> (r: Option<&Run<U>>)
        ensures
            match r {
                Some(row) => first_row(rows@, |row: Run<U>| row.id == id) == Some(*row),
                None => first_row(rows@, |row: Run<U>| row.id == id) is None,
            },
    {
        let ghost p = |row: Run<U>| row.id == id;
        proof {
            lemma_first_index(rows@, p);
        }
        let mut i: usize = 0;
        while i < rows.len()
            invariant
                0 <= i <= rows@.len(),
                p == (|row: Run<U>| row.id == id),
                first_index(rows@, p) == -1 || i <= first_index(rows@, p),
                first_index(rows@, p) >= 0 ==> p(rows@[first_index(rows@, p)]),
                forall|j: int| 0 <= j < rows@.len() && (first_index(rows@, p) == -1 || j < first_index(rows@, p)) ==> !p(#[trigger] rows@[j]),
            decreases rows.len() - i,
        {
            if rows[i].id == id {
                assert(p(rows@[i as int]));
                return Some(&rows[i]);
            }
            i = i + 1;
        }
        None
    }

    /// The first run of the given user.
    pub fn filter_by_user_id(rows: &Vec<Run<U>>, user_id: u64) -> (r: Option<&Run<U>>)
        ensures
            match r {
                Some(row) => first_row(rows@, |row: Run<U>| row.user_id == user_id) == Some(*row),
                None => first_row(rows@, |row: Run<U>| row.user_id == user_id) is None,
            },
    {
        let ghost p = |row: Run<U>| row.user_id == user_id;
        proof {
            lemma_first_index(rows@, p);
        }
        let mut i: usize = 0;
        while i < rows.len()
            invariant
                0 <= i <= rows@.len(),
                p == (|row: Run<U>| row.user_id == user_id),
                first_index(rows@, p) == -1 || i <= first_index(rows@, p),
                first_index(rows@, p) >= 0 ==> p(rows@[first_index(rows@, p)]),
                forall|j: int| 0 <= j < rows@.len() && (first_index(rows@, p) == -1 || j < first_index(rows@, p)) ==> !p(#[trigger] rows@[j]),
            decreases rows.len() - i,
        {
            if rows[i].user_id == user_id {
                assert(p(rows@[i as int]));
                return Some(&rows[i]);
            }
            i = i + 1;
        }
        None
    }
}

impl<U> ArenaArchive<U> {
    /// The first archived run with the given id.
    pub fn filter_by_id(rows: &Vec<ArenaArchive<U>>, id: u64) -> (r: Option<&ArenaArchive<U>>)
        ensures
            match r {
                Some(row) => first_row(rows@, |row: ArenaArchive<U>| row.id == id) == Some(*row),
                None => first_row(rows@, |row: ArenaArchive<U>| row.id == id) is None,
            },
    {
        let ghost p = |row: ArenaArchive<U>| row.id == id;
        proof {
            lemma_first_index(rows@, p);
        }
        let mut i: usize = 0;
        while i < rows.len()
            invariant
                0 <= i <= rows@.len(),
                p == (|row: ArenaArchive<U>| row.id == id),
                first_index(rows@, p) == -1 || i <= first_index(rows@, p),
                first_index(rows@, p) >= 0 ==> p(rows@[first_index(rows@, p)]),
                forall|j: int| 0 <= j < rows@.len() && (first_index(rows@, p) == -1 || j < first_index(rows@, p)) ==> !p(#[trigger] rows@[j]),
            decreases rows.len() - i,
        {
            if rows[i].id == id {
                assert(p(rows@[i as int]));
                return Some(&rows[i]);
            }
            i = i + 1;
        }
        None
    }
}

} // verus!
