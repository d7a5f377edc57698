//! Local mirror of the blocklist, keyed on the account an address names.
use vstd::prelude::*;

use super::jid::{account, user_part};
use crate::text::{find_str, lemma_position, list_contains, views};

verus! {

/// Blocked accounts, by user part.
pub struct Blocklist {
    pub users: Vec<String>,
}

impl Blocklist {
    /// No account is listed twice.
    pub open spec fn wf(&self) -> bool {
        views(self.users@).no_duplicates()
    }

    /// The blocked accounts.
    pub open spec fn blocked(&self) -> Set<Seq<char>> {
        views(self.users@).to_set()
    }

    pub fn new() -> (r: Self)
        ensures
            r.wf(),
            r.blocked() == Set::<Seq<char>>::empty(),
    {
        let r = Blocklist { users: Vec::new() };
        assert(r.blocked() =~= Set::empty());
        r
    }

    /// Replaces the mirror wholesale.
    pub fn replace(&mut self, jids: &Vec<String>)
        ensures
            final(self).wf(),
            final(self).blocked() == accounts(views(jids@)),
    {
        self.users = Vec::new();
        let mut i: usize = 0;
        assert(views(jids@).take(0) =~= Seq::empty());
        assert(self.blocked() =~= accounts(Seq::empty()));
        while i < jids.len()
            invariant
                i <= jids.len(),
                self.wf(),
                self.blocked() == accounts(views(jids@).take(i as int)),
            decreases jids.len() - i,
        {
            let ghost before = self.blocked();
            self.insert(jids[i].as_str());
            proof {
                let some = views(jids@).take(i as int);
                let more = views(jids@).take(i + 1);
                assert forall|u: Seq<char>|
                    accounts(more).contains(u) implies #[trigger] accounts(some).insert(
                    account(jids@[i as int]@),
                ).contains(u) by {
                    let k = choose|k: int| 0 <= k < more.len() && account(#[trigger] more[k]) == u;
                    if k < i {
                        assert(some[k] == more[k]);
                    }
                }
                assert forall|u: Seq<char>|
                    accounts(some).insert(
                        account(jids@[i as int]@),
                    ).contains(u) implies #[trigger] accounts(more).contains(u) by {
                    if accounts(some).contains(u) {
                        let k = choose|k: int|
                            0 <= k < some.len() && account(#[trigger] some[k]) == u;
                        assert(more[k] == some[k]);
                    } else {
                        assert(more[i as int] == jids@[i as int]@);
                    }
                }
                assert(self.blocked() =~= accounts(more));
            }
            i = i + 1;
        }
        assert(views(jids@).take(i as int) =~= views(jids@));
    }

    /// Records a block.
    pub fn insert(&mut self, jid: &str)
        requires
            old(self).wf(),
        ensures
            final(self).wf(),
            final(self).blocked() == old(self).blocked().insert(account(jid@)),
    {
        let user = user_part(jid);
        if !list_contains(&self.users, user) {
            let ghost before = views(self.users@);
            self.users.push(user.to_owned());
            assert(views(self.users@) =~= before.push(user@));
            assert forall|u: Seq<char>| self.blocked().contains(u) == before.to_set().insert(
                user@,
            ).contains(u) by {
                let after = views(self.users@);
                if before.contains(u) {
                    let k = choose|k: int| 0 <= k < before.len() && before[k] == u;
                    assert(after[k] == u);
                }
                if u == user@ {
                    assert(after[after.len() - 1] == u);
                }
            }
            assert(self.blocked() =~= before.to_set().insert(user@));
        } else {
            assert(self.blocked() =~= self.blocked().insert(user@));
        }
    }

    /// Records an unblock.
    pub fn remove(&mut self, jid: &str)
        requires
            old(self).wf(),
        ensures
            final(self).wf(),
            final(self).blocked() == old(self).blocked().remove(account(jid@)),
    {
        let user = user_part(jid);
        let ghost before = views(self.users@);
        proof {
            lemma_position(before, user@);
        }
        match find_str(&self.users, user) {
            Some(i) => {
                self.users.remove(i);
                let ghost after = views(self.users@);
                assert(after =~= before.remove(i as int));
                assert forall|u: Seq<char>| after.contains(u) == before.to_set().remove(
                    user@,
                ).contains(u) by {
                    if after.contains(u) {
                        let k = choose|k: int| 0 <= k < after.len() && after[k] == u;
                        if k < i {
                            assert(before[k] == u);
                        } else {
                            assert(before[k + 1] == u);
                        }
                    }
                    if before.contains(u) && u != user@ {
                        let k = choose|k: int| 0 <= k < before.len() && before[k] == u;
                        if k < i {
                            assert(after[k] == u);
                        } else {
                            assert(after[k - 1] == u);
                        }
                    }
                }
                assert(self.blocked() =~= before.to_set().remove(user@));
            },
            None => {
                assert(self.blocked() =~= self.blocked().remove(user@));
            },
        }
    }

    /// Whether the sender is blocked; the device does not matter.
    pub fn contains(&self, jid: &str) -> (r: bool)
        ensures
            r == self.blocked().contains(account(jid@)),
    {
        list_contains(&self.users, user_part(jid))
    }

    /// Whether the sender is blocked under either of its two addresses.
    pub fn blocks_either(&self, sender: &str, alt: Option<&str>) -> (r: bool)
        ensures
            r == (self.blocked().contains(account(sender@)) || (alt is Some
                && self.blocked().contains(account(alt->0@)))),
    {
        if self.contains(sender) {
            return true;
        }
        match alt {
            Some(alt) => self.contains(alt),
            None => false,
        }
    }

    /// How many accounts are mirrored.
    pub fn len(&self) -> (n: usize)
        ensures
            n == self.users@.len(),
    {
        self.users.len()
    }
}

/// The accounts that a list of addresses names.
pub open spec fn accounts(jids: Seq<Seq<char>>) -> Set<Seq<char>> {
    Set::new(|u: Seq<char>| exists|k: int| 0 <= k < jids.len() && account(#[trigger] jids[k]) == u)
}

// -------------------------------------------------------------------- laws
/// A block covers exactly the accounts of the addresses listed: every address
/// of the list is blocked, and an account that none of them names is not.
pub proof fn law_listed_accounts_are_blocked(jids: Seq<Seq<char>>, k: int, user: Seq<char>)
    ensures
        0 <= k < jids.len() ==> accounts(jids).contains(account(jids[k])),
        (forall|j: int| 0 <= j < jids.len() ==> account(#[trigger] jids[j]) != user) ==> !accounts(
            jids,
        ).contains(user),
{
}

/// A block and an unblock concern one account: the others stay as they were.
pub proof fn law_one_account_at_a_time(
    blocked: Set<Seq<char>>,
    jid: Seq<char>,
    other: Seq<char>,
)
    requires
        account(other) != account(jid),
    ensures
        blocked.insert(account(jid)).contains(account(jid)),
        !blocked.remove(account(jid)).contains(account(jid)),
        blocked.insert(account(jid)).contains(account(other)) == blocked.contains(account(other)),
        blocked.remove(account(jid)).contains(account(other)) == blocked.contains(account(other)),
{
}

} // verus!
