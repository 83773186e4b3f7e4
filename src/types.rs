use vstd::prelude::*;

verus! {

/// candid's `Principal`, an identity that requests to the signing service
/// may name; it is only carried, never read.
#[verifier::external_type_specification]
#[verifier::external_body]
pub struct ExPrincipal(candid::Principal);

/// A transfer request: destination address and amount.
pub struct SendRequest {
    pub destination_address: String,
    pub amount_in_satoshi: u64,
}

/// Reply of the signing service to a public-key request.
pub struct ECDSAPublicKeyReply {
    pub public_key: Vec<u8>,
    pub chain_code: Vec<u8>,
}

#[derive(Clone, Copy, PartialEq, Eq, Structural, Debug)]
pub enum EcdsaCurve {
    Secp256k1,
}

/// Identifies one key set of the signing service.
#[derive(Clone, Debug)]
pub struct EcdsaKeyId {
    pub curve: EcdsaCurve,
    pub name: String,
}

/// Reply of the signing service to a signing request.
pub struct SignWithECDSAReply {
    pub signature: Vec<u8>,
}

/// A public-key request to the signing service.
pub struct ECDSAPublicKey {
    pub canister_id: Option<candid::Principal>,
    pub derivation_path: Vec<Vec<u8>>,
    pub key_id: EcdsaKeyId,
}

/// A signing request to the signing service.
pub struct SignWithECDSA {
    pub message_hash: Vec<u8>,
    pub derivation_path: Vec<Vec<u8>>,
    pub key_id: EcdsaKeyId,
}

/// The signing network whose key set is in use.
#[derive(Clone, Copy, PartialEq, Eq, Structural, Debug)]
pub enum Network {
    Mainnet,
    Testnet,
    Regtest,
}

#[derive(Clone, Copy, PartialEq, Eq, Structural, Debug)]
pub enum Env {
    Prod,
    Test,
}

/// Name of the key set that a network uses.
pub open spec fn key_name(network: Network) -> Seq<char> {
    match network {
        Network::Regtest => "dfx_test_key"@,
        Network::Testnet => "test_key_1"@,
        Network::Mainnet => "key_1"@,
    }
}

impl Network {
    pub fn to_key_id(&self) -> (r: EcdsaKeyId)
        ensures
            r.curve == EcdsaCurve::Secp256k1,
            r.name@ == key_name(*self),
    {
        let name = match self {
            Network::Regtest => String::from_str("dfx_test_key"),
            Network::Testnet => String::from_str("test_key_1"),
            Network::Mainnet => String::from_str("key_1"),
        };
        EcdsaKeyId { curve: EcdsaCurve::Secp256k1, name }
    }
}

/// Authorization level of a registered identity.
#[derive(Clone, Copy, PartialEq, Eq, Structural, Debug)]
pub enum Rank {
    User,
    Admin,
}

/// A registered identity.
#[derive(Clone, Debug)]
pub struct User {
    pub salt: String,
    pub user_id: String,
    pub auth_key: String,
    pub rank: Rank,
}

/// Mathematical value of a registered identity.
pub struct UserView {
    pub salt: Seq<char>,
    pub user_id: Seq<char>,
    pub auth_key: Seq<char>,
    pub rank: Rank,
}

impl View for User {
    type V = UserView;

    open spec fn view(&self) -> UserView {
        UserView {
            salt: self.salt@,
            user_id: self.user_id@,
            auth_key: self.auth_key@,
            rank: self.rank,
        }
    }
}

impl User {
    pub fn new(user_id: String, salt: String, auth_key: String, rank: Rank) -> (r: Self)
        ensures
            r@ == (UserView { salt: salt@, user_id: user_id@, auth_key: auth_key@, rank }),
    {
        User { user_id, salt, auth_key, rank }
    }
}

/// A choice cast in a voting.
#[derive(Clone, Copy, PartialEq, Eq, Structural, Debug)]
pub enum Vote {
    Pro,
    Cons,
}

/// One voting: its description, its tallies and who voted, in order.
#[derive(Clone, Debug)]
pub struct Voting {
    pub pro: u64,
    pub cons: u64,
    pub description: String,
    pub voted: Vec<String>,
}

/// Mathematical value of a voting.
pub struct VotingView {
    pub pro: nat,
    pub cons: nat,
    pub description: Seq<char>,
    pub voted: Seq<Seq<char>>,
}

impl View for Voting {
    type V = VotingView;

    open spec fn view(&self) -> VotingView {
        VotingView {
            pro: self.pro as nat,
            cons: self.cons as nat,
            description: self.description@,
            voted: self.voted@.map_values(|s: String| s@),
        }
    }
}

/// The voting after one vote of `username`.
pub open spec fn voted_once(v: VotingView, vote: Vote, username: Seq<char>) -> VotingView {
    VotingView {
        pro: if vote == Vote::Pro { v.pro + 1 } else { v.pro },
        cons: if vote == Vote::Cons { v.cons + 1 } else { v.cons },
        description: v.description,
        voted: v.voted.push(username),
    }
}

impl Voting {
    pub fn new(description: String) -> (r: Self)
        ensures
            r@ == (VotingView { pro: 0, cons: 0, description: description@, voted: Seq::empty() }),
    {
        let r = Voting { pro: 0, cons: 0, description, voted: Vec::new() };
        assert(r@.voted =~= Seq::<Seq<char>>::empty());
        r
    }

    /// Records one vote: the chosen tally grows by one and the voter is
    /// appended, whether or not they voted before.
    pub fn user_vote(&mut self, vote: Vote, username: String)
        requires
            vote == Vote::Pro ==> old(self).pro < u64::MAX,
            vote == Vote::Cons ==> old(self).cons < u64::MAX,
        ensures
            final(self)@ == voted_once(old(self)@, vote, username@),
    {
        let ghost name = username@;
        match vote {
            Vote::Pro => {
                self.pro = self.pro + 1;
                self.voted.push(username);
            },
            Vote::Cons => {
                self.cons = self.cons + 1;
                self.voted.push(username);
            },
        }
        assert(self@.voted =~= old(self)@.voted.push(name));
    }

    /// A copy of this voting.
    pub fn snapshot(&self) -> (r: Voting)
        ensures
            r@ == self@,
    {
        let mut voted: Vec<String> = Vec::new();
        let mut i: usize = 0;
        while i < self.voted.len()
            invariant
                i <= self.voted@.len(),
                voted@.len() == i,
                voted@.map_values(|s: String| s@) =~= self@.voted.subrange(0, i as int),
            decreases self.voted@.len() - i,
        {
            let name = self.voted[i].clone();
            let ghost before = voted@;
            assert(name@ == self@.voted[i as int]);
            voted.push(name);
            assert(voted@ == before.push(name));
            i = i + 1;
            assert forall|k: int| 0 <= k < i implies voted@.map_values(|s: String| s@)[k] == self@.voted[k] by {
                if k < i - 1 {
                    assert(voted@[k] == before[k]);
                    assert(before.map_values(|s: String| s@)[k] == self@.voted.subrange(0, i - 1)[k]);
                }
            }
            assert(voted@.map_values(|s: String| s@) =~= self@.voted.subrange(0, i as int));
        }
        assert(self@.voted.subrange(0, i as int) =~= self@.voted);
        Voting { pro: self.pro, cons: self.cons, description: self.description.clone(), voted }
    }
}

/// The claims that a token carries.
#[derive(Clone, Debug)]
pub struct TokenData {
    pub username: String,
    pub user_id: String,
    pub expires_at: u64,
    pub rank: Rank,
}

} // verus!
