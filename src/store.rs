use vstd::prelude::*;
use crate::auth::{get_token_data, token_verdict};
use crate::types::{Rank, User, UserView, Vote, Voting, VotingView, voted_once};

verus! {

/// Why a token was refused.
#[derive(Clone, Copy, PartialEq, Eq, Structural, Debug)]
pub enum TokenError {
    /// Not two non-empty segments, not hex, or no payload inside.
    Malformed,
    /// The username it names is not registered.
    UnknownUser,
    /// The signature does not check against the stored public key.
    BadSignature,
    /// Its expiry time is not in the future.
    Expired,
}

/// Why an operation failed. A failed operation changes nothing.
#[derive(Clone, Copy, PartialEq, Eq, Structural, Debug)]
pub enum VoteError {
    AlreadyRegistered,
    NotFound,
    InvalidToken(TokenError),
    Unauthorized,
    /// The tally to raise is already at the largest `u64`.
    TallyFull,
    OracleError,
}

/// The map that a list of keyed entries stands for; later entries win.
pub open spec fn entries_map<V: View>(s: Seq<(String, V)>) -> Map<Seq<char>, V::V>
    decreases s.len(),
{
    if s.len() == 0 {
        Map::empty()
    } else {
        entries_map(s.drop_last()).insert(s.last().0@, s.last().1@)
    }
}

/// No key stands twice.
pub open spec fn keys_unique<V>(s: Seq<(String, V)>) -> bool {
    forall|i: int, j: int| 0 <= i < j < s.len() ==> s[i].0@ != s[j].0@
}

proof fn lemma_entries<V: View>(s: Seq<(String, V)>)
    requires
        keys_unique(s),
    ensures
        forall|k: Seq<char>| #[trigger] entries_map(s).contains_key(k) <==> exists|i: int| 0 <= i < s.len() && s[i].0@ == k,
        forall|i: int| 0 <= i < s.len() ==> entries_map(s)[#[trigger] s[i].0@] == s[i].1@,
    decreases s.len(),
{
    if s.len() > 0 {
        let p = s.drop_last();
        lemma_entries(p);
        assert forall|k: Seq<char>| #[trigger] entries_map(s).contains_key(k) <==> exists|i: int| 0 <= i < s.len() && s[i].0@ == k by {
            assert(entries_map(s) == entries_map(p).insert(s.last().0@, s.last().1@));
            if entries_map(s).contains_key(k) {
                if k != s.last().0@ {
                    assert(entries_map(p).contains_key(k));
                    let i = choose|i: int| 0 <= i < p.len() && p[i].0@ == k;
                    assert(s[i].0@ == k);
                } else {
                    assert(s[s.len() - 1].0@ == k);
                }
            }
            if exists|i: int| 0 <= i < s.len() && s[i].0@ == k {
                let i = choose|i: int| 0 <= i < s.len() && s[i].0@ == k;
                if i < s.len() - 1 {
                    assert(p[i].0@ == k);
                    assert(entries_map(p).contains_key(k));
                }
            }
        }
        assert forall|i: int| 0 <= i < s.len() implies entries_map(s)[#[trigger] s[i].0@] == s[i].1@ by {
            if i < s.len() - 1 {
                assert(p[i] == s[i]);
                assert(s[i].0@ != s.last().0@);
            }
        }
    }
}

proof fn lemma_entries_update<V: View>(s: Seq<(String, V)>, i: int, e: (String, V))
    requires
        keys_unique(s),
        0 <= i < s.len(),
        e.0@ == s[i].0@,
    ensures
        keys_unique(s.update(i, e)),
        entries_map(s.update(i, e)) == entries_map(s).insert(e.0@, e.1@),
{
    let t = s.update(i, e);
    assert(keys_unique(t)) by {
        assert forall|a: int, b: int| 0 <= a < b < t.len() implies t[a].0@ != t[b].0@ by {
            assert(s[a].0@ != s[b].0@);
        }
    }
    lemma_entries(s);
    lemma_entries(t);
    assert forall|k: Seq<char>| #[trigger] entries_map(t).contains_key(k) <==> entries_map(s).insert(e.0@, e.1@).contains_key(k) by {
        if entries_map(t).contains_key(k) {
            let j = choose|j: int| 0 <= j < t.len() && t[j].0@ == k;
            if j != i {
                assert(s[j].0@ == k);
            }
        }
        if entries_map(s).contains_key(k) {
            let j = choose|j: int| 0 <= j < s.len() && s[j].0@ == k;
            assert(t[j].0@ == k);
        }
    }
    assert forall|k: Seq<char>| #[trigger] entries_map(t).contains_key(k) implies entries_map(t)[k] == entries_map(s).insert(e.0@, e.1@)[k] by {
        let j = choose|j: int| 0 <= j < t.len() && t[j].0@ == k;
        assert(entries_map(t)[t[j].0@] == t[j].1@);
        if j != i {
            assert(entries_map(s)[s[j].0@] == s[j].1@);
        }
    }
    assert(entries_map(t) =~= entries_map(s).insert(e.0@, e.1@));
}

proof fn lemma_entries_push<V: View>(s: Seq<(String, V)>, e: (String, V))
    requires
        keys_unique(s),
        forall|i: int| 0 <= i < s.len() ==> s[i].0@ != e.0@,
    ensures
        keys_unique(s.push(e)),
        entries_map(s.push(e)) == entries_map(s).insert(e.0@, e.1@),
{
    assert(s.push(e).drop_last() =~= s);
}

/// Index of the entry with this key.
fn find_key<V>(s: &Vec<(String, V)>, key: &String) -> (r: Option<usize>)
    ensures
        match r {
            Some(i) => i < s@.len() && s@[i as int].0@ == key@,
            None => forall|i: int| 0 <= i < s@.len() ==> s@[i].0@ != key@,
        },
{
    let mut i: usize = 0;
    while i < s.len()
        invariant
            i <= s@.len(),
            forall|j: int| 0 <= j < i ==> s@[j].0@ != key@,
        decreases s@.len() - i,
    {
        if s[i].0 == *key {
            return Some(i);
        }
        i = i + 1;
    }
    None
}

/// The identity registry and the voting ledger.
pub struct Store {
    users: Vec<(String, User)>,
    votings: Vec<(String, Voting)>,
}

/// The rank that a new registration receives.
pub open spec fn rank_for(users: Map<Seq<char>, UserView>) -> Rank {
    if users == Map::<Seq<char>, UserView>::empty() {
        Rank::Admin
    } else {
        Rank::User
    }
}

/// Whether casting `vote` would push its tally past the largest `u64`.
pub open spec fn tally_full(v: VotingView, vote: Vote) -> bool {
    match vote {
        Vote::Pro => v.pro >= u64::MAX,
        Vote::Cons => v.cons >= u64::MAX,
    }
}

proof fn lemma_entries_views<V: View>(s: Seq<(String, V)>, t: Seq<(String, V)>)
    requires
        s.len() == t.len(),
        forall|j: int| 0 <= j < s.len() ==> s[j].0@ == t[j].0@ && s[j].1@ == t[j].1@,
    ensures
        entries_map(s) == entries_map(t),
    decreases s.len(),
{
    if s.len() > 0 {
        lemma_entries_views(s.drop_last(), t.drop_last());
    }
}

impl Store {
    /// Registered identities, by username.
    pub closed spec fn users(&self) -> Map<Seq<char>, UserView> {
        entries_map(self.users@)
    }

    /// Votings, by name.
    pub closed spec fn votings(&self) -> Map<Seq<char>, VotingView> {
        entries_map(self.votings@)
    }

    pub closed spec fn wf(&self) -> bool {
        keys_unique(self.users@) && keys_unique(self.votings@)
    }

    pub fn new() -> (r: Store)
        ensures
            r.wf(),
            r.users() == Map::<Seq<char>, UserView>::empty(),
            r.votings() == Map::<Seq<char>, VotingView>::empty(),
    {
        Store { users: Vec::new(), votings: Vec::new() }
    }

    /// The identity registered under a username.
    pub fn get_user(&self, username: &String) -> (r: Option<&User>)
        requires
            self.wf(),
        ensures
            match r {
                Some(u) => self.users().contains_key(username@) && u@ == self.users()[username@],
                None => !self.users().contains_key(username@),
            },
    {
        proof {
            lemma_entries(self.users@);
        }
        match find_key(&self.users, username) {
            Some(i) => Some(&self.users[i].1),
            None => None,
        }
    }

    /// The rank that a registration made now would receive.
    pub fn next_rank(&self) -> (r: Rank)
        requires
            self.wf(),
        ensures
            r == rank_for(self.users()),
    {
        proof {
            lemma_entries(self.users@);
        }
        if self.users.len() == 0 {
            assert(self.users() =~= Map::<Seq<char>, UserView>::empty());
            Rank::Admin
        } else {
            assert(self.users().contains_key(self.users@[0].0@));
            Rank::User
        }
    }

    /// Registers a new identity. The first identity of an empty registry is
    /// an admin, every later one a user; the rank given is returned.
    pub fn register(&mut self, username: String, salt: String, user_id: String, auth_key: String) -> (r: Result<Rank, VoteError>)
        requires
            old(self).wf(),
        ensures
            final(self).wf(),
            final(self).votings() == old(self).votings(),
            old(self).users().contains_key(username@) ==> r == Err::<Rank, VoteError>(VoteError::AlreadyRegistered)
                && final(self).users() == old(self).users(),
            !old(self).users().contains_key(username@) ==> r == Ok::<Rank, VoteError>(rank_for(old(self).users()))
                && final(self).users() == old(self).users().insert(
                    username@,
                    UserView { salt: salt@, user_id: user_id@, auth_key: auth_key@, rank: rank_for(old(self).users()) },
                ),
    {
        proof {
            lemma_entries(self.users@);
        }
        match find_key(&self.users, &username) {
            Some(_) => Err(VoteError::AlreadyRegistered),
            None => {
                let rank = self.next_rank();
                let user = User::new(user_id, salt, auth_key, rank);
                let entry = (username, user);
                proof {
                    lemma_entries_push(self.users@, entry);
                }
                self.users.push(entry);
                Ok(rank)
            },
        }
    }

    /// The rank to put in a login token, for a caller whose id must match
    /// the one stored at registration.
    pub fn log_in_rank(&self, username: &String, user_id: &String) -> (r: Result<Rank, VoteError>)
        requires
            self.wf(),
        ensures
            !self.users().contains_key(username@) ==> r == Err::<Rank, VoteError>(VoteError::NotFound),
            self.users().contains_key(username@) && self.users()[username@].user_id != user_id@
                ==> r == Err::<Rank, VoteError>(VoteError::Unauthorized),
            self.users().contains_key(username@) && self.users()[username@].user_id == user_id@
                ==> r == Ok::<Rank, VoteError>(self.users()[username@].rank),
    {
        match self.get_user(username) {
            Some(u) => if u.user_id == *user_id {
                Ok(u.rank)
            } else {
                Err(VoteError::Unauthorized)
            },
            None => Err(VoteError::NotFound),
        }
    }
}

/// Whether a username is registered.
pub fn is_user_registered(store: &Store, username: &String) -> (r: bool)
    requires
        store.wf(),
    ensures
        r == store.users().contains_key(username@),
{
    proof {
        lemma_entries(store.users@);
    }
    find_key(&store.users, username).is_some()
}

/// The salt stored for a username.
pub fn get_user_salt(store: &Store, username: &String) -> (r: Result<String, VoteError>)
    requires
        store.wf(),
    ensures
        match r {
            Ok(salt) => store.users().contains_key(username@) && salt@ == store.users()[username@].salt,
            Err(e) => e == VoteError::NotFound && !store.users().contains_key(username@),
        },
{
    match store.get_user(username) {
        Some(u) => Ok(u.salt.clone()),
        None => Err(VoteError::NotFound),
    }
}

/// Creates a voting, or replaces the one of the same name; only an
/// admin's valid token may do so.
pub fn create_vote(store: &mut Store, auth_token: &String, vote_name: String, vote_description: String, now: u64) -> (r: Result<(), VoteError>)
    requires
        old(store).wf(),
    ensures
        final(store).wf(),
        final(store).users() == old(store).users(),
        match token_verdict(old(store).users(), auth_token@, now) {
            Err(e) => r == Err::<(), VoteError>(VoteError::InvalidToken(e)) && final(store).votings() == old(store).votings(),
            Ok(c) => if c.3 != Rank::Admin {
                r == Err::<(), VoteError>(VoteError::Unauthorized) && final(store).votings() == old(store).votings()
            } else {
                r == Ok::<(), VoteError>(()) && final(store).votings() == old(store).votings().insert(
                    vote_name@,
                    VotingView { pro: 0, cons: 0, description: vote_description@, voted: Seq::empty() },
                )
            },
        },
{
    let data = match get_token_data(store, auth_token, now) {
        Ok(d) => d,
        Err(e) => return Err(VoteError::InvalidToken(e)),
    };
    if data.rank != Rank::Admin {
        return Err(VoteError::Unauthorized);
    }
    let voting = Voting::new(vote_description);
    proof {
        lemma_entries(store.votings@);
    }
    match find_key(&store.votings, &vote_name) {
        Some(i) => {
            let entry = (vote_name, voting);
            proof {
                lemma_entries_update(store.votings@, i as int, entry);
            }
            let ghost before = store.votings@;
            store.votings.remove(i);
            store.votings.insert(i, entry);
            assert(store.votings@ =~= before.update(i as int, entry));
        },
        None => {
            let entry = (vote_name, voting);
            proof {
                lemma_entries_push(store.votings@, entry);
            }
            store.votings.push(entry);
        },
    }
    Ok(())
}

/// Casts a vote with any valid token and returns the voting as it
/// stands afterwards. A voter may vote any number of times.
pub fn vote_at(store: &mut Store, auth_token: &String, vote_name: &String, vote: Vote, now: u64) -> (r: Result<Voting, VoteError>)
    requires
        old(store).wf(),
    ensures
        final(store).wf(),
        final(store).users() == old(store).users(),
        match token_verdict(old(store).users(), auth_token@, now) {
            Err(e) => r == Err::<Voting, VoteError>(VoteError::InvalidToken(e)) && final(store).votings() == old(store).votings(),
            Ok(c) => if !old(store).votings().contains_key(vote_name@) {
                r == Err::<Voting, VoteError>(VoteError::NotFound) && final(store).votings() == old(store).votings()
            } else if tally_full(old(store).votings()[vote_name@], vote) {
                r == Err::<Voting, VoteError>(VoteError::TallyFull) && final(store).votings() == old(store).votings()
            } else {
                r matches Ok(v) && v@ == voted_once(old(store).votings()[vote_name@], vote, c.0)
                    && final(store).votings() == old(store).votings().insert(vote_name@, v@)
            },
        },
{
    let data = match get_token_data(store, auth_token, now) {
        Ok(d) => d,
        Err(e) => return Err(VoteError::InvalidToken(e)),
    };
    proof {
        lemma_entries(store.votings@);
    }
    let i = match find_key(&store.votings, vote_name) {
        Some(i) => i,
        None => return Err(VoteError::NotFound),
    };
    let full = match vote {
        Vote::Pro => store.votings[i].1.pro == u64::MAX,
        Vote::Cons => store.votings[i].1.cons == u64::MAX,
    };
    if full {
        return Err(VoteError::TallyFull);
    }
    let ghost before = store.votings@;
    let (name, mut voting) = store.votings.remove(i);
    voting.user_vote(vote, data.username);
    let result = voting.snapshot();
    let entry = (name, voting);
    proof {
        lemma_entries_update(before, i as int, entry);
    }
    store.votings.insert(i, entry);
    assert(store.votings@ =~= before.update(i as int, entry));
    Ok(result)
}

/// Every voting with its name, in the order in which the names were first
/// created.
pub fn get_votings(store: &Store) -> (r: Vec<(String, Voting)>)
    requires
        store.wf(),
    ensures
        keys_unique(r@),
        entries_map(r@) == store.votings(),
{
    let mut r: Vec<(String, Voting)> = Vec::new();
    let mut i: usize = 0;
    while i < store.votings.len()
        invariant
            i <= store.votings@.len(),
            r@.len() == i,
            forall|j: int| 0 <= j < i ==> r@[j].0@ == store.votings@[j].0@ && r@[j].1@ == store.votings@[j].1@,
        decreases store.votings@.len() - i,
    {
        let entry = (store.votings[i].0.clone(), store.votings[i].1.snapshot());
        r.push(entry);
        i = i + 1;
    }
    proof {
        lemma_entries_views(r@, store.votings@);
    }
    r
}

/// The registry after the first `n` of a run of registrations from empty.
pub open spec fn registry_after(names: Seq<Seq<char>>, records: Seq<UserView>, n: nat) -> Map<Seq<char>, UserView>
    decreases n,
{
    if n == 0 {
        Map::empty()
    } else {
        let m = registry_after(names, records, (n - 1) as nat);
        let rec = records[n - 1];
        m.insert(
            names[n - 1],
            UserView { salt: rec.salt, user_id: rec.user_id, auth_key: rec.auth_key, rank: rank_for(m) },
        )
    }
}

proof fn lemma_registry_keys(names: Seq<Seq<char>>, records: Seq<UserView>, n: nat)
    ensures
        forall|k: Seq<char>| #[trigger] registry_after(names, records, n).contains_key(k)
            <==> exists|j: int| 0 <= j < n && names[j] == k,
    decreases n,
{
    if n > 0 {
        lemma_registry_keys(names, records, (n - 1) as nat);
        assert forall|k: Seq<char>| #[trigger] registry_after(names, records, n).contains_key(k)
            <==> exists|j: int| 0 <= j < n && names[j] == k by {
            let m = registry_after(names, records, (n - 1) as nat);
            let k_last = names[n - 1];
            assert(registry_after(names, records, n).dom() == m.dom().insert(k_last));
            if k == k_last {
                assert(0 <= n - 1 < n && names[n - 1] == k);
            } else {
                if registry_after(names, records, n).contains_key(k) {
                    assert(m.contains_key(k));
                    let j = choose|j: int| 0 <= j < n - 1 && names[j] == k;
                    assert(0 <= j < n && names[j] == k);
                }
                if exists|j: int| 0 <= j < n && names[j] == k {
                    let j = choose|j: int| 0 <= j < n && names[j] == k;
                    assert(0 <= j < n - 1 && names[j] == k);
                    assert(m.contains_key(k));
                }
            }
        }
    }
}

/// In a run of registrations of distinct usernames that starts from an
/// empty registry, every registration finds its username free; the first
/// receives the admin rank and every later one the user rank.
pub proof fn lemma_first_registration_admin(names: Seq<Seq<char>>, records: Seq<UserView>)
    requires
        names.len() == records.len(),
        forall|a: int, b: int| 0 <= a < b < names.len() ==> names[a] != names[b],
    ensures
        forall|n: nat| n < names.len() ==> !(#[trigger] registry_after(names, records, n)).contains_key(names[n as int]),
        names.len() > 0 ==> rank_for(registry_after(names, records, 0)) == Rank::Admin,
        forall|n: nat| 0 < n < names.len() ==> rank_for(#[trigger] registry_after(names, records, n)) == Rank::User,
{
    assert forall|n: nat| n < names.len() implies !(#[trigger] registry_after(names, records, n)).contains_key(names[n as int]) by {
        lemma_registry_keys(names, records, n);
    }
    assert forall|n: nat| 0 < n < names.len() implies rank_for(#[trigger] registry_after(names, records, n)) == Rank::User by {
        lemma_registry_keys(names, records, n);
        assert(names[0] == names[0]);
        assert(registry_after(names, records, n).contains_key(names[0]));
    }
}

} // verus!
