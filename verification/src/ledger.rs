//! The token ledger: which account owns each token, and what a token says
//! of itself.

use vstd::prelude::*;
use crate::keyed::{DeepCopy, KeyedMap, MapKey};
use crate::principal::PrincipalId;

verus! {

/// An ICRC-1 account: an owner and an optional 32-byte subaccount.
pub struct Account {
    pub owner: PrincipalId,
    pub subaccount: Option<[u8; 32]>,
}

/// The subaccount that no subaccount stands for: 32 zero bytes.
pub open spec fn default_subaccount() -> Seq<u8> {
    Seq::new(32, |i: int| 0u8)
}

/// The subaccount in effect: the one given, or the default.
pub open spec fn effective_subaccount(s: Option<[u8; 32]>) -> Seq<u8> {
    match s {
        Some(a) => a@,
        None => default_subaccount(),
    }
}

/// Two accounts are the same when their owners and their subaccounts in
/// effect are: no subaccount is the same as the zero subaccount.
impl View for Account {
    type V = (Seq<u8>, Seq<u8>);

    open spec fn view(&self) -> (Seq<u8>, Seq<u8>) {
        (self.owner@, effective_subaccount(self.subaccount))
    }
}

fn arrays_equal(a: &[u8; 32], b: &[u8; 32]) -> (r: bool)
    ensures
        r == (a@ == b@),
{
    let mut i: usize = 0;
    while i < 32
        invariant
            i <= 32,
            a@.len() == 32,
            b@.len() == 32,
            forall|j: int| 0 <= j < i ==> a@[j] == b@[j],
        decreases 32 - i,
    {
        if a[i] != b[i] {
            return false;
        }
        i += 1;
    }
    assert(a@ =~= b@);
    true
}

fn all_zero(a: &[u8; 32]) -> (r: bool)
    ensures
        r == (a@ == default_subaccount()),
{
    let mut i: usize = 0;
    while i < 32
        invariant
            i <= 32,
            a@.len() == 32,
            forall|j: int| 0 <= j < i ==> a@[j] == 0u8,
        decreases 32 - i,
    {
        if a[i] != 0 {
            assert(a@[i as int] != default_subaccount()[i as int]);
            return false;
        }
        i += 1;
    }
    assert(a@ =~= default_subaccount());
    true
}

impl MapKey for Account {
    fn key_eq(&self, other: &Self) -> (b: bool) {
        if !self.owner.key_eq(&other.owner) {
            return false;
        }
        match (&self.subaccount, &other.subaccount) {
            (Some(x), Some(y)) => arrays_equal(x, y),
            (Some(x), None) => all_zero(x),
            (None, Some(y)) => all_zero(y),
            (None, None) => true,
        }
    }

    fn key_copy(&self) -> (c: Self)
        ensures
            c.subaccount == self.subaccount,
    {
        Account { owner: self.owner.key_copy(), subaccount: self.subaccount }
    }
}

impl DeepCopy for Account {
    fn deep_copy(&self) -> (c: Self) {
        self.key_copy()
    }
}

/// A token: its id, name, description, logo and owner.
pub struct Icrc7Token {
    pub token_id: u128,
    pub token_name: String,
    pub token_description: Option<String>,
    pub token_logo: Option<String>,
    pub token_owner: Account,
}

/// What a token holds, texts by their characters and the owner by its view.
pub struct TokenView {
    pub token_id: u128,
    pub name: Seq<char>,
    pub description: Option<Seq<char>>,
    pub logo: Option<Seq<char>>,
    pub owner: (Seq<u8>, Seq<u8>),
    pub owner_subaccount: Option<Seq<u8>>,
}

/// A subaccount as it is stored: none, or its bytes.
pub open spec fn stored_subaccount(s: Option<[u8; 32]>) -> Option<Seq<u8>> {
    match s {
        Some(a) => Some(a@),
        None => None,
    }
}

pub open spec fn text_opt(s: Option<String>) -> Option<Seq<char>> {
    match s {
        Some(t) => Some(t@),
        None => None,
    }
}

impl View for Icrc7Token {
    type V = TokenView;

    open spec fn view(&self) -> TokenView {
        TokenView {
            token_id: self.token_id,
            name: self.token_name@,
            description: text_opt(self.token_description),
            logo: text_opt(self.token_logo),
            owner: self.token_owner@,
            owner_subaccount: stored_subaccount(self.token_owner.subaccount),
        }
    }
}

fn copy_text(s: &Option<String>) -> (r: Option<String>)
    ensures
        text_opt(r) == text_opt(*s),
{
    match s {
        Some(t) => Some(t.clone()),
        None => None,
    }
}

impl DeepCopy for Icrc7Token {
    fn deep_copy(&self) -> (c: Self) {
        Icrc7Token {
            token_id: self.token_id,
            token_name: self.token_name.clone(),
            token_description: copy_text(&self.token_description),
            token_logo: copy_text(&self.token_logo),
            token_owner: self.token_owner.key_copy(),
        }
    }
}

/// The metadata a token gives of itself, by key order: its description and
/// logo when it has them, its name, and its name again as its symbol.
pub open spec fn token_metadata_entries(t: TokenView) -> Seq<(Seq<char>, Seq<char>)> {
    (match t.description {
        Some(d) => seq![("Description"@, d)],
        None => Seq::empty(),
    }) + (match t.logo {
        Some(l) => seq![("Logo"@, l)],
        None => Seq::empty(),
    }) + seq![("Name"@, t.name), ("Symbol"@, t.name)]
}

/// A token's metadata reports exactly its fields: its description under
/// "Description" and its logo under "Logo" when it has them, and its name
/// under "Name" and under "Symbol"; no other pair is reported, and each key
/// comes once.
pub proof fn lemma_token_metadata_reports_fields(t: TokenView, k: Seq<char>, v: Seq<char>)
    ensures
        token_metadata_entries(t).contains(("Logo"@, v)) <==> t.logo == Some(v),
        token_metadata_entries(t).contains(("Description"@, v)) <==> t.description == Some(v),
        token_metadata_entries(t).contains(("Name"@, v)) <==> v == t.name,
        token_metadata_entries(t).contains(("Symbol"@, v)) <==> v == t.name,
        token_metadata_entries(t).contains((k, v)) ==> k == "Logo"@ || k == "Description"@ || k == "Name"@
            || k == "Symbol"@,
        token_metadata_entries(t).len() == 2 + (if t.logo is Some {
            1int
        } else {
            0
        }) + (if t.description is Some {
            1int
        } else {
            0
        }),
{
    reveal_strlit("Logo");
    reveal_strlit("Description");
    reveal_strlit("Name");
    reveal_strlit("Symbol");
    assert("Logo"@ != "Name"@) by {
        assert("Logo"@[0] != "Name"@[0]);
    }
    assert("Logo"@ != "Symbol"@) by {
        assert("Logo"@.len() != "Symbol"@.len());
    }
    assert("Logo"@ != "Description"@) by {
        assert("Logo"@.len() != "Description"@.len());
    }
    assert("Description"@ != "Name"@) by {
        assert("Description"@.len() != "Name"@.len());
    }
    assert("Description"@ != "Symbol"@) by {
        assert("Description"@.len() != "Symbol"@.len());
    }
    assert("Name"@ != "Symbol"@) by {
        assert("Name"@.len() != "Symbol"@.len());
    }
    let e = token_metadata_entries(t);
    let d: Seq<(Seq<char>, Seq<char>)> = match t.description {
        Some(d) => seq![("Description"@, d)],
        None => Seq::empty(),
    };
    let l: Seq<(Seq<char>, Seq<char>)> = match t.logo {
        Some(l) => seq![("Logo"@, l)],
        None => Seq::empty(),
    };
    let n: Seq<(Seq<char>, Seq<char>)> = seq![("Name"@, t.name), ("Symbol"@, t.name)];
    assert(e == d + l + n);
    assert forall|x: (Seq<char>, Seq<char>)| e.contains(x) <==> (d.contains(x) || l.contains(x) || n.contains(x)) by {
        if e.contains(x) {
            let i = choose|i: int| 0 <= i < e.len() && e[i] == x;
            if i < d.len() {
                assert(d[i] == x);
            } else if i < d.len() + l.len() {
                assert(l[i - d.len()] == x);
            } else {
                assert(n[i - d.len() - l.len()] == x);
            }
        }
        if d.contains(x) {
            let i = choose|i: int| 0 <= i < d.len() && d[i] == x;
            assert(e[i] == x);
        }
        if l.contains(x) {
            let i = choose|i: int| 0 <= i < l.len() && l[i] == x;
            assert(e[d.len() + i] == x);
        }
        if n.contains(x) {
            let i = choose|i: int| 0 <= i < n.len() && n[i] == x;
            assert(e[d.len() + l.len() + i] == x);
        }
    }
    assert forall|x: (Seq<char>, Seq<char>)| n.contains(x) <==> (x == n[0] || x == n[1]) by {
        if x == n[0] {
            assert(n[0] == x);
        }
        if x == n[1] {
            assert(n[1] == x);
        }
    }
    assert forall|x: (Seq<char>, Seq<char>)| l.contains(x) <==> (t.logo matches Some(y) && x == ("Logo"@, y)) by {
        if t.logo is Some {
            assert(l[0] == ("Logo"@, t.logo.unwrap()));
        }
    }
    assert forall|x: (Seq<char>, Seq<char>)| d.contains(x) <==> (t.description matches Some(y) && x == (
        "Description"@,
        y,
    )) by {
        if t.description is Some {
            assert(d[0] == ("Description"@, t.description.unwrap()));
        }
    }
    assert(n.contains(("Name"@, t.name))) by {
        assert(n[0] == ("Name"@, t.name));
    }
    assert(n.contains(("Symbol"@, t.name))) by {
        assert(n[1] == ("Symbol"@, t.name));
    }
    if t.logo is Some {
        assert(l[0] == ("Logo"@, t.logo.unwrap()));
    }
    if t.description is Some {
        assert(d[0] == ("Description"@, t.description.unwrap()));
    }
}

pub open spec fn text_pairs_view(v: Seq<(String, String)>) -> Seq<(Seq<char>, Seq<char>)> {
    v.map_values(|p: (String, String)| (p.0@, p.1@))
}

impl Icrc7Token {
    /// A token of `token_owner`.
    pub fn new(
        token_id: u128,
        token_name: String,
        token_description: Option<String>,
        token_logo: Option<String>,
        token_owner: Account,
    ) -> (t: Self)
        ensures
            t.token_id == token_id,
            t.token_name == token_name,
            t.token_description == token_description,
            t.token_logo == token_logo,
            t.token_owner == token_owner,
    {
        Icrc7Token { token_id, token_name, token_description, token_logo, token_owner }
    }

    /// The token now belongs to `to`.
    pub fn transfer(&mut self, to: Account)
        ensures
            final(self).token_owner == to,
            final(self).token_id == old(self).token_id,
            final(self).token_name == old(self).token_name,
            final(self).token_description == old(self).token_description,
            final(self).token_logo == old(self).token_logo,
    {
        self.token_owner = to;
    }

    /// The token goes to the burn account.
    pub fn burn(&mut self, burn_address: Account)
        ensures
            final(self).token_owner == burn_address,
            final(self).token_id == old(self).token_id,
            final(self).token_name == old(self).token_name,
            final(self).token_description == old(self).token_description,
            final(self).token_logo == old(self).token_logo,
    {
        self.token_owner = burn_address;
    }

    /// The token's metadata as (key, text) pairs in increasing key order.
    pub fn token_metadata(&self) -> (r: Vec<(String, String)>)
        ensures
            text_pairs_view(r@) == token_metadata_entries(self@),
    {
        let mut r: Vec<(String, String)> = Vec::new();
        if let Some(d) = &self.token_description {
            r.push(("Description".to_string(), d.clone()));
        }
        if let Some(l) = &self.token_logo {
            r.push(("Logo".to_string(), l.clone()));
        }
        r.push(("Name".to_string(), self.token_name.clone()));
        r.push(("Symbol".to_string(), self.token_name.clone()));
        assert(text_pairs_view(r@) =~= token_metadata_entries(self@));
        r
    }
}

/// The tokens of the collection by id.
pub struct TokenLedger {
    tokens_list: KeyedMap<u128, Icrc7Token>,
}

impl View for TokenLedger {
    type V = Map<u128, TokenView>;

    closed spec fn view(&self) -> Map<u128, TokenView> {
        self.tokens_list@
    }
}

/// The ids of the tokens that `owner` holds.
pub open spec fn owned_ids(m: Map<u128, TokenView>, owner: (Seq<u8>, Seq<u8>)) -> Set<u128> {
    m.dom().filter(|t: u128| m[t].owner == owner)
}

impl DeepCopy for TokenLedger {
    fn deep_copy(&self) -> (c: Self) {
        TokenLedger { tokens_list: self.tokens_list.deep_copy() }
    }
}

impl TokenLedger {
    /// A ledger without tokens.
    pub fn new() -> (l: Self)
        ensures
            l@ == Map::<u128, TokenView>::empty(),
    {
        TokenLedger { tokens_list: KeyedMap::new() }
    }

    /// The token with this id.
    pub fn get_token_by_id(&self, token_id: u128) -> (r: Option<&Icrc7Token>)
        ensures
            match r {
                Some(t) => self@.contains_key(token_id) && t@ == self@[token_id],
                None => !self@.contains_key(token_id),
            },
    {
        self.tokens_list.get(&token_id)
    }

    /// Stores `token` under `token_id`.
    pub fn update_token_by_id(&mut self, token_id: u128, token: &Icrc7Token)
        ensures
            final(self)@ == old(self)@.insert(token_id, token@),
    {
        self.tokens_list.insert(token_id, token.deep_copy());
    }

    /// Removes the token `token_id`, if it exists.
    pub fn remove_token(&mut self, token_id: u128)
        ensures
            final(self)@ == old(self)@.remove(token_id),
    {
        self.tokens_list.remove(&token_id);
    }

    /// Stores `token` under its own id.
    pub fn add_token(&mut self, token: &Icrc7Token)
        ensures
            final(self)@ == old(self)@.insert(token.token_id, token@),
    {
        self.tokens_list.insert(token.token_id, token.deep_copy());
    }

    /// The owner of the token, if it exists.
    pub fn owner_of(&self, token_id: u128) -> (r: Option<Account>)
        ensures
            match r {
                Some(a) => self@.contains_key(token_id) && a@ == self@[token_id].owner
                    && stored_subaccount(a.subaccount) == self@[token_id].owner_subaccount,
                None => !self@.contains_key(token_id),
            },
    {
        match self.tokens_list.get(&token_id) {
            Some(t) => Some(t.token_owner.key_copy()),
            None => None,
        }
    }

    /// The ids of the tokens that `owner` holds, each once.
    pub fn tokens_ids_of_account(&self, owner: &Account) -> (r: Vec<u128>)
        ensures
            r@.no_duplicates(),
            r@.to_set() == owned_ids(self@, owner@),
    {
        proof {
            use_type_invariant(&self.tokens_list);
            self.tokens_list.lemma_positions();
        }
        let n = self.tokens_list.len();
        let mut r: Vec<u128> = Vec::new();
        let mut i: usize = 0;
        while i < n
            invariant
                n == self.tokens_list.spec_len(),
                self.tokens_list.inv(),
                i <= n,
                r@.no_duplicates(),
                forall|t: u128| #[trigger] r@.contains(t) <==> exists|p: int|
                    0 <= p < i && self.tokens_list.spec_key_at(p) == t
                        && self.tokens_list.spec_value_at(p).owner == owner@,
            decreases n - i,
        {
            proof {
                self.tokens_list.lemma_positions();
            }
            let t = self.tokens_list.value_at(i);
            let id = *self.tokens_list.key_at(i);
            if t.token_owner.key_eq(owner) {
                proof {
                    assert forall|p: int| 0 <= p < i implies self.tokens_list.spec_key_at(p) != id by {
                        assert(self.tokens_list.spec_key_at(i as int) == id);
                    }
                    assert(!r@.contains(id));
                }
                let ghost before = r@;
                r.push(id);
                proof {
                    assert forall|a: int, b: int| 0 <= a < b < r@.len() implies r@[a] != r@[b] by {
                        if b == before.len() {
                            assert(before.contains(before[a]));
                        }
                    }
                    assert forall|x: u128| #[trigger] r@.contains(x) <==> exists|p: int|
                        0 <= p < i + 1 && self.tokens_list.spec_key_at(p) == x
                            && self.tokens_list.spec_value_at(p).owner == owner@ by {
                        if r@.contains(x) && x != id {
                            let k = choose|k: int| 0 <= k < r@.len() && r@[k] == x;
                            assert(before.contains(before[k]));
                        }
                        if x == id {
                            assert(r@[before.len() as int] == x);
                        } else if exists|p: int|
                            0 <= p < i + 1 && self.tokens_list.spec_key_at(p) == x
                                && self.tokens_list.spec_value_at(p).owner == owner@ {
                            assert(before.contains(x));
                            let k = choose|k: int| 0 <= k < before.len() && before[k] == x;
                            assert(r@[k] == x);
                        }
                    }
                }
            }
            i += 1;
        }
        proof {
            self.tokens_list.lemma_positions();
            assert forall|x: u128| #[trigger] r@.to_set().contains(x) <==> owned_ids(self@, owner@).contains(
                x,
            ) by {
                if self@.contains_key(x) {
                    let p = self.tokens_list.spec_index_of(x);
                    assert(self.tokens_list.spec_key_at(p) == x);
                }
                if r@.contains(x) {
                    let p = choose|p: int|
                        0 <= p < n && self.tokens_list.spec_key_at(p) == x
                            && self.tokens_list.spec_value_at(p).owner == owner@;
                    assert(self@[self.tokens_list.spec_key_at(p)] == self.tokens_list.spec_value_at(p));
                }
            }
            assert(r@.to_set() =~= owned_ids(self@, owner@));
        }
        r
    }

    /// Copies of the tokens that `owner` holds, each once.
    pub fn tokens_of_account(&self, owner: &Account) -> (r: Vec<Icrc7Token>)
        ensures
            exists|ids: Seq<u128>|
                {
                    &&& ids.no_duplicates()
                    &&& ids.to_set() == owned_ids(self@, owner@)
                    &&& r@.len() == ids.len()
                    &&& forall|i: int| 0 <= i < ids.len() ==> (#[trigger] r@[i])@ == self@[ids[i]]
                },
    {
        let ids = self.tokens_ids_of_account(owner);
        let mut r: Vec<Icrc7Token> = Vec::new();
        let mut i: usize = 0;
        while i < ids.len()
            invariant
                i <= ids@.len(),
                ids@.to_set() == owned_ids(self@, owner@),
                r@.len() == i,
                forall|k: int| 0 <= k < i ==> (#[trigger] r@[k])@ == self@[ids@[k]],
            decreases ids@.len() - i,
        {
            assert(ids@.to_set().contains(ids@[i as int]));
            assert(self@.contains_key(ids@[i as int]));
            let t = self.tokens_list.get(&ids[i]);
            match t {
                Some(t) => {
                    r.push(t.deep_copy());
                },
                None => {},
            }
            i += 1;
        }
        r
    }

    /// How many tokens `owner` holds.
    pub fn tokens_balance_of(&self, owner: &Account) -> (n: u128)
        ensures
            n == owned_ids(self@, owner@).len(),
    {
        let ids = self.tokens_ids_of_account(owner);
        proof {
            ids@.unique_seq_to_set();
        }
        ids.len() as u128
    }

    /// The number of tokens, which fits a `usize`.
    pub fn token_count(&self) -> (n: usize)
        ensures
            n == self@.len(),
    {
        self.tokens_list.len()
    }

    /// The number of tokens.
    pub fn total_supply(&self) -> (n: u128)
        ensures
            n == self@.len(),
    {
        self.tokens_list.len() as u128
    }

    /// The ids of all tokens, each once.
    pub fn token_ids(&self) -> (r: Vec<u128>)
        ensures
            r@.no_duplicates(),
            r@.to_set() == self@.dom(),
    {
        proof {
            use_type_invariant(&self.tokens_list);
            self.tokens_list.lemma_positions();
        }
        let n = self.tokens_list.len();
        let mut r: Vec<u128> = Vec::new();
        let mut i: usize = 0;
        while i < n
            invariant
                n == self.tokens_list.spec_len(),
                self.tokens_list.inv(),
                i <= n,
                r@.len() == i,
                forall|k: int| 0 <= k < i ==> r@[k] == self.tokens_list.spec_key_at(k),
            decreases n - i,
        {
            r.push(*self.tokens_list.key_at(i));
            i += 1;
        }
        proof {
            self.tokens_list.lemma_positions();
            assert forall|a: int, b: int| 0 <= a < b < r@.len() implies r@[a] != r@[b] by {}
            assert forall|x: u128| #[trigger] r@.to_set().contains(x) <==> self@.dom().contains(x) by {
                if self@.contains_key(x) {
                    let p = self.tokens_list.spec_index_of(x);
                    assert(r@[p] == x);
                }
            }
            assert(r@.to_set() =~= self@.dom());
        }
        r
    }
}

} // verus!
