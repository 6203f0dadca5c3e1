//! A seat-assignment session: its random identifier, the administrator's
//! key, the layout, the registered occupants and the engine.
use std::collections::HashMap;
use rand::distributions::Alphanumeric;
use rand::rngs::OsRng;
use rand::Rng;
use vstd::prelude::*;
use crate::layout::SeatStructure;
use crate::seat::SekigaeEngine;
use crate::user::User;

verus! {

broadcast use vstd::std_specs::hash::group_hash_axioms;

/// Length of a session identifier.
pub const SESSION_ID_LEN: usize = 20;

/// An ASCII letter or digit.
pub open spec fn is_alphanumeric(c: char) -> bool {
    ('A' <= c && c <= 'Z') || ('a' <= c && c <= 'z') || ('0' <= c && c <= '9')
}

/// Relies on rand's `Alphanumeric` distribution sampled from `OsRng`: each
/// draw is one of `A-Z`, `a-z`, `0-9`. `OsRng` panics only if the operating
/// system's random source fails.
#[verifier::external_body]
fn random_alphanumeric() -> (c: char)
    ensures
        is_alphanumeric(c),
{
    let mut rng = OsRng;
    rng.sample(Alphanumeric) as char
}

/// Relies on `String::push`: appends one character.
#[verifier::external_body]
fn push_char(s: &mut String, c: char)
    ensures
        final(s)@ == old(s)@.push(c),
{
    s.push(c)
}

/// A fresh random string of `len` ASCII letters and digits, drawn from the
/// operating system's random source.
pub fn random_alphanumeric_string(len: usize) -> (r: String)
    ensures
        r@.len() == len,
        forall|i: int| 0 <= i < len ==> is_alphanumeric(#[trigger] r@[i]),
{
    let mut s = String::new();
    let mut i: usize = 0;
    while i < len
        invariant
            i <= len,
            s@.len() == i,
            forall|k: int| 0 <= k < i ==> is_alphanumeric(#[trigger] s@[k]),
        decreases len - i,
    {
        let c = random_alphanumeric();
        push_char(&mut s, c);
        i = i + 1;
    }
    s
}

/// One session.
pub struct Sekigae {
    pub id: String,
    pub admin_session: String,
    pub seat_structure: SeatStructure,
    pub users: HashMap<usize, User>,
    pub engine: SekigaeEngine,
}

impl Sekigae {
    /// A new session over `structure` with a fresh random identifier and no
    /// registered occupants.
    pub fn new(structure: SeatStructure, admin_session: &str) -> (r: Self)
        ensures
            r.id@.len() == SESSION_ID_LEN,
            forall|i: int| 0 <= i < SESSION_ID_LEN ==> is_alphanumeric(#[trigger] r.id@[i]),
            r.admin_session@ == admin_session@,
            r.seat_structure == structure,
            r.users@ == Map::<usize, User>::empty(),
            r.engine.wf(),
            r.engine.structure@.len() == 0,
            r.engine.users@.len() == 0,
    {
        let id = random_alphanumeric_string(SESSION_ID_LEN);
        Sekigae {
            id,
            admin_session: admin_session.to_owned(),
            seat_structure: structure,
            users: HashMap::new(),
            engine: SekigaeEngine::new(),
        }
    }

    pub fn id(&self) -> (r: &str)
        ensures
            r@ == self.id@,
    {
        self.id.as_str()
    }

    /// Registers `user` under `number`, replacing any earlier one.
    pub fn set_user(&mut self, number: usize, user: User)
        ensures
            final(self).users@ == old(self).users@.insert(number, user),
            final(self).id == old(self).id,
            final(self).admin_session == old(self).admin_session,
            final(self).seat_structure == old(self).seat_structure,
            final(self).engine == old(self).engine,
    {
        self.users.insert(number, user);
    }

    pub fn get_user(&self, number: usize) -> (r: Option<&User>)
        ensures
            match r {
                Some(u) => self.users@.contains_key(number) && *u == self.users@[number],
                None => !self.users@.contains_key(number),
            },
    {
        self.users.get(&number)
    }
}

} // verus!
