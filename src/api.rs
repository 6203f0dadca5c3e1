//! Values exchanged with the service layer: the creation request and the
//! creation result.
use vstd::prelude::*;
use crate::layout::SeatStructure;
use crate::user::User;

verus! {

/// A creation request: a layout and `(id, optional display name)` pairs.
pub struct ApiStruct {
    pub seat_structure: SeatStructure,
    pub user_set: Vec<(usize, Option<String>)>,
}

/// The display name a request gives, or the empty name.
pub open spec fn name_or_empty(name: Option<String>) -> Seq<char> {
    match name {
        Some(n) => n@,
        None => Seq::empty(),
    }
}

impl ApiStruct {
    /// The layout and the occupants the request describes, in request order,
    /// each without preferences.
    pub fn convert(self) -> (r: (SeatStructure, Vec<User>))
        ensures
            r.0 == self.seat_structure,
            r.1@.len() == self.user_set@.len(),
            forall|i: int|
                0 <= i < r.1@.len() ==> {
                    &&& (#[trigger] r.1@[i]).number == self.user_set@[i].0
                    &&& r.1@[i].name@ == name_or_empty(self.user_set@[i].1)
                    &&& r.1@[i].want@.len() == 0
                },
    {
        let mut users: Vec<User> = Vec::new();
        let mut i: usize = 0;
        while i < self.user_set.len()
            invariant
                i <= self.user_set@.len(),
                users@.len() == i,
                forall|k: int|
                    0 <= k < i ==> {
                        &&& (#[trigger] users@[k]).number == self.user_set@[k].0
                        &&& users@[k].name@ == name_or_empty(self.user_set@[k].1)
                        &&& users@[k].want@.len() == 0
                    },
            decreases self.user_set@.len() - i,
        {
            let entry = &self.user_set[i];
            let name = match &entry.1 {
                Some(n) => n.clone(),
                None => String::new(),
            };
            users.push(User::new(entry.0, name));
            i = i + 1;
        }
        (self.seat_structure, users)
    }
}

/// The outcome of a creation request: a session id or an error message.
pub enum IDResult {
    Error(String),
    ID(String),
}

impl IDResult {
    pub fn new(result: Result<String, String>) -> (r: Self)
        ensures
            match result {
                Ok(id) => r == IDResult::ID(id),
                Err(e) => r == IDResult::Error(e),
            },
    {
        match result {
            Ok(id) => IDResult::ID(id),
            Err(err) => IDResult::Error(err),
        }
    }
}

} // verus!
