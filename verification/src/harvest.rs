//! Key harvesting: from what the key directory answered to the member keys
//! of a group.

use vstd::prelude::*;
use crate::error::{Error, FetchFault, ParseFault};
use crate::key_list::{entries, has_malformed, parse_keys, rsa_keys};
use crate::key_material::{
    decode_openssh,
    openssh_decoding,
    validate_key,
    validated,
    DecodedKey,
    DecodedKeyView,
    RSA_BYTE_SIZE,
};
use crate::record::{keys_text, render_keys};
use crate::order::{
    canonical,
    canonical_usernames,
    lemma_canonical_exists,
    lemma_canonical_of_same_names,
    precedes,
    strictly_ordered,
};

verus! {

/// The largest number of keys a group may hold.
pub const MAX_GROUP_SIZE: usize = 300;

/// What became of the request for one username's keys.
#[derive(Debug, Clone, PartialEq, Eq)]
pub enum FetchOutcome {
    /// The request could not be made or was never answered.
    Unreachable,
    /// The directory answered with a non-success status.
    Refused,
    /// The body of the answer could not be read as text.
    Unreadable,
    /// The directory answered with this text.
    Body(String),
}

/// The mathematical content of a `FetchOutcome`.
pub enum FetchOutcomeView {
    Unreachable,
    Refused,
    Unreadable,
    Body(Seq<char>),
}

impl View for FetchOutcome {
    type V = FetchOutcomeView;

    open spec fn view(&self) -> FetchOutcomeView {
        match *self {
            FetchOutcome::Unreachable => FetchOutcomeView::Unreachable,
            FetchOutcome::Refused => FetchOutcomeView::Refused,
            FetchOutcome::Unreadable => FetchOutcomeView::Unreadable,
            FetchOutcome::Body(text) => FetchOutcomeView::Body(text@),
        }
    }
}

/// The directory's answer for one username.
#[derive(Debug, Clone, PartialEq, Eq)]
pub struct Response {
    pub username: String,
    pub outcome: FetchOutcome,
}

/// The address under which the directory publishes the keys of `username`.
pub open spec fn address_of(username: Seq<char>) -> Seq<char> {
    "https://github.com/"@ + username + ".keys"@
}

/// Builds the address to request for `username`.
pub fn keys_address(username: &str) -> (address: String)
    ensures
        address@ == address_of(username@),
{
    let mut address = String::from_str("https://github.com/");
    address.append(username);
    address.append(".keys");
    address
}

/// The member keys of a run of decoded keys: the moduli in order, or the
/// failure of the first key that is not usable.
pub open spec fn collected(ds: Seq<DecodedKeyView>) -> Result<Seq<Seq<u8>>, Error>
    decreases ds.len(),
{
    if ds.len() == 0 {
        Ok(Seq::empty())
    } else {
        match collected(ds.drop_last()) {
            Err(e) => Err(e),
            Ok(keys) => match validated(ds.last()) {
                Err(e) => Err(e),
                Ok(key) => Ok(keys.push(key)),
            },
        }
    }
}

/// Whether a result is the one that `expected` describes.
pub open spec fn keys_result_is(
    r: Result<Vec<Vec<u8>>, Error>,
    expected: Result<Seq<Seq<u8>>, Error>,
) -> bool {
    match r {
        Ok(keys) => expected == Ok::<Seq<Seq<u8>>, Error>(keys.deep_view()),
        Err(e) => expected == Err::<Seq<Seq<u8>>, Error>(e),
    }
}

/// Whether every key has the length of a member key.
pub open spec fn all_sized(keys: Seq<Seq<u8>>) -> bool {
    forall|i: int| 0 <= i < keys.len() ==> (#[trigger] keys[i]).len() == RSA_BYTE_SIZE
}

/// The views of a run of decoded keys.
pub open spec fn decoded_views(ds: Seq<DecodedKey>) -> Seq<DecodedKeyView> {
    Seq::new(ds.len(), |i: int| ds[i]@)
}

/// Validates decoded keys in order and gathers their moduli; the first key
/// that is not usable fails the whole run with its own failure.
pub fn collect_keys(decoded: Vec<DecodedKey>) -> (r: Result<Vec<Vec<u8>>, Error>)
    ensures
        keys_result_is(r, collected(decoded_views(decoded@))),
        r is Ok ==> all_sized(r->Ok_0.deep_view()),
{
    let ghost ds = decoded_views(decoded@);
    let mut keys: Vec<Vec<u8>> = Vec::new();
    assert(ds.take(0) =~= Seq::empty());
    assert(keys.deep_view() =~= Seq::empty());
    for d in it: decoded
        invariant
            ds == decoded_views(it.seq()),
            collected(ds.take(it.index() as int)) == Ok::<Seq<Seq<u8>>, Error>(keys.deep_view()),
            all_sized(keys.deep_view()),
    {
        let ghost i = it.index() as int;
        let ghost before = keys.deep_view();
        proof {
            assert(ds.take(i + 1).drop_last() =~= ds.take(i));
            assert(ds.take(i + 1).last() == d@);
        }
        match validate_key(d) {
            Err(e) => {
                proof {
                    lemma_collected_fails(ds, i + 1);
                }
                return Err(e);
            },
            Ok(key) => {
                keys.push(key);
                assert(key.deep_view() =~= key@);
                assert(keys.deep_view() =~= before.push(key@));
            },
        }
    }
    assert(ds.take(ds.len() as int) =~= ds);
    Ok(keys)
}

/// A failure among the first `n` keys is the failure of the whole run.
proof fn lemma_collected_fails(ds: Seq<DecodedKeyView>, n: int)
    requires
        0 <= n <= ds.len(),
        collected(ds.take(n)) is Err,
    ensures
        collected(ds) == collected(ds.take(n)),
    decreases ds.len() - n,
{
    if n < ds.len() {
        assert(ds.take(n + 1).drop_last() =~= ds.take(n));
        lemma_collected_fails(ds, n + 1);
    } else {
        assert(ds.take(n) =~= ds);
    }
}

/// The decoder, as a function on key texts.
pub open spec fn decoding() -> spec_fn(Seq<char>) -> DecodedKeyView {
    |text: Seq<char>| openssh_decoding(text)
}

/// The member keys that an answer of the directory yields, or the failure
/// that makes the username be passed over.
pub open spec fn harvested(outcome: FetchOutcomeView) -> Result<Seq<Seq<u8>>, Error> {
    match outcome {
        FetchOutcomeView::Unreachable => Err(Error::DirectoryFetch(FetchFault::Transport)),
        FetchOutcomeView::Refused => Err(Error::DirectoryFetch(FetchFault::Status)),
        FetchOutcomeView::Unreadable => Err(Error::DirectoryFetch(FetchFault::Body)),
        FetchOutcomeView::Body(text) => if has_malformed(entries(text)) {
            Err(Error::KeyParse(ParseFault::KeyList))
        } else {
            collected(rsa_keys(entries(text)).map_values(decoding()))
        },
    }
}

/// Decodes every key text of a list.
fn decode_all(texts: &Vec<String>) -> (decoded: Vec<DecodedKey>)
    ensures
        decoded_views(decoded@) == texts.deep_view().map_values(decoding()),
{
    let mut decoded: Vec<DecodedKey> = Vec::new();
    let mut i: usize = 0;
    while i < texts.len()
        invariant
            i <= texts.len(),
            decoded.len() == i,
            forall|j: int| 0 <= j < i ==> (#[trigger] decoded@[j])@ == openssh_decoding(texts@[j]@),
        decreases texts.len() - i,
    {
        let d = decode_openssh(texts[i].as_str());
        decoded.push(d);
        i = i + 1;
    }
    assert(decoded_views(decoded@) =~= texts.deep_view().map_values(decoding()));
    decoded
}

/// Turns the directory's answer for one username into that member's keys.
///
/// A request that failed, a key list with a malformed RSA entry, and a key
/// that is not a usable RSA key each fail the whole answer.
pub fn get_and_process_username(response: &Response) -> (r: Result<Vec<Vec<u8>>, Error>)
    ensures
        keys_result_is(r, harvested(response.outcome@)),
        r is Ok ==> all_sized(r->Ok_0.deep_view()),
{
    match &response.outcome {
        FetchOutcome::Unreachable => Err(Error::DirectoryFetch(FetchFault::Transport)),
        FetchOutcome::Refused => Err(Error::DirectoryFetch(FetchFault::Status)),
        FetchOutcome::Unreadable => Err(Error::DirectoryFetch(FetchFault::Body)),
        FetchOutcome::Body(text) => {
            match parse_keys(text.as_str()) {
                Err(e) => Err(e),
                Ok(texts) => collect_keys(decode_all(&texts)),
            }
        },
    }
}

/// The answer recorded for `name` at or after index `i`: that of the first
/// response for that name. A name without a response was never answered.
pub open spec fn outcome_from(responses: Seq<Response>, name: Seq<char>, i: int) -> FetchOutcomeView
    decreases responses.len() - i,
{
    if i >= responses.len() {
        FetchOutcomeView::Unreachable
    } else if 0 <= i && responses[i].username@ == name {
        responses[i].outcome@
    } else {
        outcome_from(responses, name, i + 1)
    }
}

/// The answer recorded for `name`.
pub open spec fn outcome_for(responses: Seq<Response>, name: Seq<char>) -> FetchOutcomeView {
    outcome_from(responses, name, 0)
}

/// The mathematical content of a membership set.
pub struct GroupView {
    /// The names whose keys were harvested, in canonical order.
    pub members: Seq<Seq<char>>,
    /// The names that were passed over, in canonical order.
    pub skipped: Seq<Seq<char>>,
    /// The member keys, in the order of the members.
    pub keys: Seq<Seq<u8>>,
    /// For every key, the name it was harvested for.
    pub owners: Seq<Seq<char>>,
}

/// `n` times the same name.
pub open spec fn repeated(name: Seq<char>, n: nat) -> Seq<Seq<char>> {
    Seq::new(n, |i: int| name)
}

/// What harvesting the names in order yields: a name whose answer gives
/// keys becomes a member and its keys are added; any other name is skipped.
pub open spec fn gathered(names: Seq<Seq<char>>, responses: Seq<Response>) -> GroupView
    decreases names.len(),
{
    if names.len() == 0 {
        GroupView {
            members: Seq::empty(),
            skipped: Seq::empty(),
            keys: Seq::empty(),
            owners: Seq::empty(),
        }
    } else {
        let g = gathered(names.drop_last(), responses);
        match harvested(outcome_for(responses, names.last())) {
            Ok(keys) => GroupView {
                members: g.members.push(names.last()),
                keys: g.keys + keys,
                owners: g.owners + repeated(names.last(), keys.len()),
                ..g
            },
            Err(_) => GroupView { skipped: g.skipped.push(names.last()), ..g },
        }
    }
}

/// What a group's names, in whatever order, and the directory's answers
/// make of the group.
pub open spec fn group_of(usernames: Seq<Seq<char>>, responses: Seq<Response>) -> GroupView {
    gathered(canonical(usernames), responses)
}

/// Whether every name of `ms` comes before the names of `names` from `k` on.
pub open spec fn all_before(ms: Seq<Seq<char>>, names: Seq<Seq<char>>, k: int) -> bool {
    forall|i: int, j: int|
        0 <= i < ms.len() && k <= j < names.len() ==> precedes(#[trigger] ms[i], #[trigger] names[j])
}

/// The members of a group with their keys.
///
/// A value of this type always holds at most `MAX_GROUP_SIZE` keys of
/// `RSA_BYTE_SIZE` bytes each, with an owner for each, and its names are in
/// canonical order.
#[derive(Debug)]
pub struct MembershipSet {
    members: Vec<String>,
    skipped: Vec<String>,
    keys: Vec<Vec<u8>>,
    owners: Vec<String>,
}

impl View for MembershipSet {
    type V = GroupView;

    closed spec fn view(&self) -> GroupView {
        GroupView {
            members: self.members.deep_view(),
            skipped: self.skipped.deep_view(),
            keys: self.keys.deep_view(),
            owners: self.owners.deep_view(),
        }
    }
}

/// What holds of every membership set.
pub open spec fn well_formed(g: GroupView) -> bool {
    &&& g.keys.len() <= MAX_GROUP_SIZE
    &&& g.owners.len() == g.keys.len()
    &&& all_sized(g.keys)
    &&& strictly_ordered(g.members)
    &&& strictly_ordered(g.skipped)
}

impl MembershipSet {
    #[verifier::type_invariant]
    spec fn inv(self) -> bool {
        well_formed(self@)
    }

    /// The names whose keys were harvested, in canonical order.
    pub fn usernames(&self) -> (names: &Vec<String>)
        ensures
            names.deep_view() == self@.members,
            strictly_ordered(self@.members),
    {
        proof {
            use_type_invariant(self);
        }
        &self.members
    }

    /// The names that were passed over, in canonical order.
    pub fn skipped(&self) -> (names: &Vec<String>)
        ensures
            names.deep_view() == self@.skipped,
            strictly_ordered(self@.skipped),
    {
        proof {
            use_type_invariant(self);
        }
        &self.skipped
    }

    /// The member keys, in the order of the members.
    pub fn keys(&self) -> (keys: &Vec<Vec<u8>>)
        ensures
            keys.deep_view() == self@.keys,
            keys.len() <= MAX_GROUP_SIZE,
            all_sized(self@.keys),
    {
        proof {
            use_type_invariant(self);
        }
        &self.keys
    }

    /// For every key, the name it was harvested for.
    pub fn owners(&self) -> (names: &Vec<String>)
        ensures
            names.deep_view() == self@.owners,
            names.len() == self@.keys.len(),
    {
        proof {
            use_type_invariant(self);
        }
        &self.owners
    }

    /// The member keys as they are persisted.
    pub fn record(&self) -> (text: String)
        ensures
            text@ == keys_text(self@.keys),
    {
        render_keys(&self.keys)
    }

    /// Whether `key` is one of the member keys.
    pub fn holds_key(&self, key: &Vec<u8>) -> (found: bool)
        ensures
            found == self@.keys.contains(key@),
    {
        let mut i: usize = 0;
        while i < self.keys.len()
            invariant
                i <= self.keys.len(),
                forall|j: int| 0 <= j < i ==> (#[trigger] self.keys@[j])@ != key@,
            decreases self.keys.len() - i,
        {
            if same_bytes(&self.keys[i], key) {
                assert(self@.keys[i as int] =~= key@);
                return true;
            }
            i = i + 1;
        }
        assert forall|j: int| 0 <= j < self@.keys.len() implies self@.keys[j] != key@ by {
            assert(self@.keys[j] =~= self.keys@[j]@);
        }
        false
    }
}

/// Whether two byte strings are equal.
fn same_bytes(a: &Vec<u8>, b: &Vec<u8>) -> (same: bool)
    ensures
        same == (a@ == b@),
{
    if a.len() != b.len() {
        return false;
    }
    let mut i: usize = 0;
    while i < a.len()
        invariant
            i <= a.len(),
            a.len() == b.len(),
            forall|j: int| 0 <= j < i ==> a@[j] == b@[j],
        decreases a.len() - i,
    {
        if a[i] != b[i] {
            return false;
        }
        i = i + 1;
    }
    assert(a@ =~= b@);
    true
}

/// Finds the answer recorded for `name`, if any.
fn find_response<'a>(responses: &'a Vec<Response>, name: &String) -> (found: Option<&'a Response>)
    ensures
        match found {
            Some(response) => response.outcome@ == outcome_for(responses@, name@),
            None => outcome_for(responses@, name@) == FetchOutcomeView::Unreachable,
        },
{
    let mut i: usize = 0;
    while i < responses.len()
        invariant
            i <= responses.len(),
            outcome_for(responses@, name@) == outcome_from(responses@, name@, i as int),
        decreases responses.len() - i,
    {
        if responses[i].username == *name {
            return Some(&responses[i]);
        }
        i = i + 1;
    }
    None
}

/// Harvests a group: the names are brought into canonical order, each
/// name's recorded answer is turned into keys, in that order, and names
/// whose answer yields no keys are skipped.
///
/// Fails exactly when the group would hold more than `MAX_GROUP_SIZE` keys.
pub fn get_all_users(list_usernames: Vec<String>, responses: &Vec<Response>) -> (r: Result<
    MembershipSet,
    Error,
>)
    ensures
        ({
            let g = group_of(list_usernames.deep_view(), responses@);
            match r {
                Ok(set) => g.keys.len() <= MAX_GROUP_SIZE && set@ == g,
                Err(e) => g.keys.len() > MAX_GROUP_SIZE && e == Error::GroupSizeExceeded,
            }
        }),
{
    let names = canonical_usernames(&list_usernames);
    let ghost ns = names.deep_view();
    let mut members: Vec<String> = Vec::new();
    let mut skipped: Vec<String> = Vec::new();
    let mut keys: Vec<Vec<u8>> = Vec::new();
    let mut owners: Vec<String> = Vec::new();
    let mut k: usize = 0;
    proof {
        assert(owners.deep_view() =~= Seq::empty());
        assert(ns.take(0) =~= Seq::empty());
        assert(members.deep_view() =~= Seq::empty());
        assert(skipped.deep_view() =~= Seq::empty());
        assert(keys.deep_view() =~= Seq::empty());
    }
    while k < names.len()
        invariant
            k <= names.len(),
            ns == names.deep_view(),
            strictly_ordered(ns),
            gathered(ns.take(k as int), responses@) == (GroupView {
                members: members.deep_view(),
                skipped: skipped.deep_view(),
                keys: keys.deep_view(),
                owners: owners.deep_view(),
            }),
            owners.len() == keys.len(),
            all_sized(keys.deep_view()),
            strictly_ordered(members.deep_view()),
            strictly_ordered(skipped.deep_view()),
            all_before(members.deep_view(), ns, k as int),
            all_before(skipped.deep_view(), ns, k as int),
        decreases names.len() - k,
    {
        let name = &names[k];
        let ghost ms = members.deep_view();
        let ghost ss = skipped.deep_view();
        let ghost ks = keys.deep_view();
        let ghost os = owners.deep_view();
        proof {
            assert(ns.take(k + 1).drop_last() =~= ns.take(k as int));
            assert(ns.take(k + 1).last() == name@);
        }
        let harvest = match find_response(responses, name) {
            Some(response) => get_and_process_username(response),
            None => Err(Error::DirectoryFetch(FetchFault::Transport)),
        };
        match harvest {
            Ok(mut found) => {
                let ghost fs = found.deep_view();
                let mut j: usize = 0;
                while j < found.len()
                    invariant
                        j <= found.len(),
                        owners.len() == os.len() + j,
                        owners.deep_view() == os + repeated(name@, j as nat),
                    decreases found.len() - j,
                {
                    let ghost before = owners.deep_view();
                    owners.push(name.clone());
                    assert(owners.deep_view() =~= before.push(name@));
                    assert(owners.deep_view() =~= os + repeated(name@, (j + 1) as nat));
                    j = j + 1;
                }
                keys.append(&mut found);
                members.push(name.clone());
                proof {
                    assert(keys.deep_view() =~= ks + fs);
                    assert(members.deep_view() =~= ms.push(name@));
                    lemma_push_keeps_order(ms, ns, k as int);
                    lemma_others_stay_before(ss, ns, k as int);
                }
            },
            Err(_) => {
                skipped.push(name.clone());
                proof {
                    assert(owners.deep_view() == os);
                    assert(skipped.deep_view() =~= ss.push(name@));
                    lemma_push_keeps_order(ss, ns, k as int);
                    lemma_others_stay_before(ms, ns, k as int);
                }
            },
        }
        k = k + 1;
    }
    assert(ns.take(k as int) =~= ns);
    if keys.len() > MAX_GROUP_SIZE {
        return Err(Error::GroupSizeExceeded);
    }
    Ok(MembershipSet { members, skipped, keys, owners })
}

/// Adding the next name of a strictly ordered list to names that all come
/// before it keeps them strictly ordered, and before the names after it.
proof fn lemma_push_keeps_order(ms: Seq<Seq<char>>, names: Seq<Seq<char>>, k: int)
    requires
        0 <= k < names.len(),
        strictly_ordered(names),
        strictly_ordered(ms),
        all_before(ms, names, k),
    ensures
        strictly_ordered(ms.push(names[k])),
        all_before(ms.push(names[k]), names, k + 1),
{
    let after = ms.push(names[k]);
    assert forall|i: int, j: int| 0 <= i < j < after.len() implies precedes(
        #[trigger] after[i],
        #[trigger] after[j],
    ) by {
        if j < ms.len() {
            assert(precedes(ms[i], ms[j]));
        } else {
            assert(precedes(ms[i], names[k]));
        }
    }
    assert forall|i: int, j: int| 0 <= i < after.len() && k + 1 <= j < names.len() implies precedes(
        #[trigger] after[i],
        #[trigger] names[j],
    ) by {
        if i < ms.len() {
            assert(precedes(ms[i], names[j]));
        } else {
            assert(precedes(names[k], names[j]));
        }
    }
}

/// Names that come before the names from `k` on come before those from
/// `k + 1` on.
proof fn lemma_others_stay_before(ms: Seq<Seq<char>>, names: Seq<Seq<char>>, k: int)
    requires
        all_before(ms, names, k),
    ensures
        all_before(ms, names, k + 1),
{
    assert forall|i: int, j: int| 0 <= i < ms.len() && k + 1 <= j < names.len() implies precedes(
        #[trigger] ms[i],
        #[trigger] names[j],
    ) by {
        assert(precedes(ms[i], names[j]));
    }
}

/// What a group comes to, and with it the key list that is persisted,
/// depends on the set of its names, not on the order in which they were
/// given nor on how often one was given.
pub proof fn lemma_group_order_independent(
    a: Seq<Seq<char>>,
    b: Seq<Seq<char>>,
    responses: Seq<Response>,
)
    requires
        a.to_set() == b.to_set(),
    ensures
        group_of(a, responses) == group_of(b, responses),
        keys_text(group_of(a, responses).keys) == keys_text(group_of(b, responses).keys),
{
    lemma_canonical_of_same_names(a, b);
}

/// A name that is skipped adds no key, and a member adds exactly the keys
/// that its answer yields.
pub proof fn lemma_gathered_step(names: Seq<Seq<char>>, name: Seq<char>, responses: Seq<Response>)
    ensures
        ({
            let before = gathered(names, responses);
            let after = gathered(names.push(name), responses);
            match harvested(outcome_for(responses, name)) {
                Ok(keys) => after.keys == before.keys + keys && after.members
                    == before.members.push(name) && after.skipped == before.skipped
                    && after.owners == before.owners + repeated(name, keys.len()),
                Err(_) => after.keys == before.keys && after.members == before.members
                    && after.skipped == before.skipped.push(name) && after.owners == before.owners,
            }
        }),
{
    assert(names.push(name).drop_last() =~= names);
}

/// A key is held by the keys of two runs put together exactly when one of
/// the runs holds it: taking a member's keys out of a group leaves the keys
/// of the others.
pub proof fn lemma_key_of_either(a: Seq<Seq<u8>>, b: Seq<Seq<u8>>, key: Seq<u8>)
    ensures
        (a + b).contains(key) <==> a.contains(key) || b.contains(key),
{
    if a.contains(key) {
        let i = choose|i: int| 0 <= i < a.len() && a[i] == key;
        assert((a + b)[i] == key);
    }
    if b.contains(key) {
        let i = choose|i: int| 0 <= i < b.len() && b[i] == key;
        assert((a + b)[a.len() + i] == key);
    }
    if (a + b).contains(key) {
        let i = choose|i: int| 0 <= i < (a + b).len() && (a + b)[i] == key;
        if i < a.len() {
            assert(a[i] == key);
        } else {
            assert(b[i - a.len()] == key);
        }
    }
}

/// Whether the answer recorded for `name` yields `key`.
pub open spec fn yields(responses: Seq<Response>, name: Seq<char>, key: Seq<u8>) -> bool {
    match harvested(outcome_for(responses, name)) {
        Ok(keys) => keys.contains(key),
        Err(_) => false,
    }
}

/// Harvesting names in order holds a key exactly when the answer for one
/// of the names yields it.
pub proof fn lemma_gathered_holds(names: Seq<Seq<char>>, responses: Seq<Response>, key: Seq<u8>)
    ensures
        gathered(names, responses).keys.contains(key) <==> exists|i: int|
            0 <= i < names.len() && yields(responses, #[trigger] names[i], key),
    decreases names.len(),
{
    if names.len() == 0 {
        assert(!gathered(names, responses).keys.contains(key));
    } else {
        let d = names.drop_last();
        let g = gathered(d, responses);
        lemma_gathered_holds(d, responses, key);
        match harvested(outcome_for(responses, names.last())) {
            Ok(keys) => {
                lemma_key_of_either(g.keys, keys, key);
            },
            Err(_) => {},
        }
        if exists|i: int| 0 <= i < d.len() && yields(responses, #[trigger] d[i], key) {
            let i = choose|i: int| 0 <= i < d.len() && yields(responses, #[trigger] d[i], key);
            assert(names[i] == d[i]);
        }
        if exists|i: int| 0 <= i < names.len() && yields(responses, #[trigger] names[i], key) {
            let i = choose|i: int| 0 <= i < names.len() && yields(responses, #[trigger] names[i], key);
            if i < d.len() {
                assert(d[i] == names[i]);
            } else {
                assert(names[i] == names.last());
            }
        }
        if yields(responses, names.last(), key) {
            assert(names[names.len() - 1] == names.last());
        }
    }
}

/// A group holds a key exactly when the answer for one of its names yields
/// it. So a group from which a name is left out holds that member's key
/// only if the answer for another of its names yields the same key.
pub proof fn lemma_group_holds(usernames: Seq<Seq<char>>, responses: Seq<Response>, key: Seq<u8>)
    ensures
        group_of(usernames, responses).keys.contains(key) <==> exists|name: Seq<char>|
            #[trigger] usernames.contains(name) && yields(responses, name, key),
{
    let names = canonical(usernames);
    lemma_canonical_exists(usernames);
    lemma_gathered_holds(names, responses, key);
    if exists|i: int| 0 <= i < names.len() && yields(responses, #[trigger] names[i], key) {
        let i = choose|i: int| 0 <= i < names.len() && yields(responses, #[trigger] names[i], key);
        assert(names.contains(names[i]));
        assert(names.to_set().contains(names[i]));
        assert(usernames.to_set().contains(names[i]));
        assert(usernames.contains(names[i]));
    }
    if exists|name: Seq<char>| #[trigger] usernames.contains(name) && yields(responses, name, key) {
        let name = choose|name: Seq<char>| #[trigger]
            usernames.contains(name) && yields(responses, name, key);
        assert(usernames.to_set().contains(name));
        assert(names.to_set().contains(name));
        assert(names.contains(name));
        let i = choose|i: int| 0 <= i < names.len() && names[i] == name;
        assert(yields(responses, names[i], key));
    }
}

} // verus!
