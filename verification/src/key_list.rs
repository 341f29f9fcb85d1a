//! The key-list grammar.
//!
//! A key directory answers with a text in which every key starts with the
//! marker `ssh-`. The text between two markers is an entry; its first two
//! whitespace-separated fields are the algorithm tag (without the marker) and
//! the key data. Entries tagged `rsa` are kept and rewritten as single-line
//! key texts; all other entries are passed over.

use vstd::prelude::*;
use crate::chars::{char_is_space, chars_of, skip_spaces, skip_word};
use crate::error::{Error, ParseFault};

verus! {

/// Whether the marker `ssh-` stands in `s` at index `i`.
pub open spec fn marker_at(s: Seq<char>, i: int) -> bool {
    &&& 0 <= i
    &&& i + 4 <= s.len()
    &&& s[i] == 's'
    &&& s[i + 1] == 's'
    &&& s[i + 2] == 'h'
    &&& s[i + 3] == '-'
}

/// The entries of `s` from `start` on, when the text before `i` of the
/// current entry holds no marker: the marker is searched left to right and
/// occurrences do not overlap.
pub open spec fn split_from(s: Seq<char>, start: int, i: int) -> Seq<Seq<char>>
    decreases s.len() - i,
{
    if i >= s.len() {
        seq![s.subrange(start, s.len() as int)]
    } else if marker_at(s, i) {
        seq![s.subrange(start, i)] + split_from(s, i + 4, i + 4)
    } else {
        split_from(s, start, i + 1)
    }
}

/// The texts that the marker separates in `s`, in order. There is always at
/// least one; an entry may be empty.
pub open spec fn entries(s: Seq<char>) -> Seq<Seq<char>> {
    split_from(s, 0, 0)
}

/// Where the first field of `p` starts.
pub open spec fn tag_start(p: Seq<char>) -> int {
    skip_spaces(p, 0)
}

/// Where the first field of `p` ends.
pub open spec fn tag_end(p: Seq<char>) -> int {
    skip_word(p, tag_start(p))
}

/// Where the second field of `p` starts.
pub open spec fn data_start(p: Seq<char>) -> int {
    skip_spaces(p, tag_end(p))
}

/// Where the second field of `p` ends.
pub open spec fn data_end(p: Seq<char>) -> int {
    skip_word(p, data_start(p))
}

/// The first whitespace-separated field of `p`; empty when `p` has none.
pub open spec fn tag_field(p: Seq<char>) -> Seq<char> {
    p.subrange(tag_start(p), tag_end(p))
}

/// The second whitespace-separated field of `p`; empty when `p` has fewer
/// than two fields.
pub open spec fn data_field(p: Seq<char>) -> Seq<char> {
    p.subrange(data_start(p), data_end(p))
}

/// Whether the entry's tag identifies an RSA key: it starts with `rsa`.
pub open spec fn entry_is_rsa(p: Seq<char>) -> bool {
    let t = tag_field(p);
    t.len() >= 3 && t[0] == 'r' && t[1] == 's' && t[2] == 'a'
}

/// Whether the entry is an RSA entry without key data.
pub open spec fn entry_malformed(p: Seq<char>) -> bool {
    entry_is_rsa(p) && data_field(p).len() == 0
}

/// Whether some entry of `es` is malformed.
pub open spec fn has_malformed(es: Seq<Seq<char>>) -> bool {
    exists|i: int| 0 <= i < es.len() && entry_malformed(#[trigger] es[i])
}

/// The single-line key text of an RSA entry: `ssh-rsa `, the key data, and
/// a line feed.
pub open spec fn canonical_key(p: Seq<char>) -> Seq<char> {
    seq!['s', 's', 'h', '-', 'r', 's', 'a', ' '] + data_field(p) + seq!['\n']
}

/// The predicate that selects RSA entries.
pub open spec fn rsa_entries() -> spec_fn(Seq<char>) -> bool {
    |p: Seq<char>| entry_is_rsa(p)
}

/// The rewriting of an entry into its key text.
pub open spec fn rewriting() -> spec_fn(Seq<char>) -> Seq<char> {
    |p: Seq<char>| canonical_key(p)
}

/// The key texts of the RSA entries of `es`, in the order of the entries.
pub open spec fn rsa_keys(es: Seq<Seq<char>>) -> Seq<Seq<char>> {
    es.filter(rsa_entries()).map_values(rewriting())
}

/// Adding an entry at the end adds its key text at the end, if it is an
/// RSA entry, and nothing otherwise.
pub proof fn lemma_rsa_keys_push(es: Seq<Seq<char>>, p: Seq<char>)
    ensures
        rsa_keys(es.push(p)) == if entry_is_rsa(p) {
            rsa_keys(es).push(canonical_key(p))
        } else {
            rsa_keys(es)
        },
{
    es.lemma_filter_push(p, rsa_entries());
    if entry_is_rsa(p) {
        assert(es.filter(rsa_entries()).push(p).map_values(rewriting()) =~= es.filter(
            rsa_entries(),
        ).map_values(rewriting()).push(canonical_key(p)));
    }
}

/// No entries give no key texts.
pub proof fn lemma_rsa_keys_empty()
    ensures
        rsa_keys(Seq::empty()) == Seq::<Seq<char>>::empty(),
{
    Seq::<Seq<char>>::empty().lemma_filter_len(rsa_entries());
    assert(rsa_keys(Seq::empty()) =~= Seq::<Seq<char>>::empty());
}

/// Skips whitespace in the entry `cs[lo..hi]`, starting at `from`.
fn after_spaces(cs: &Vec<char>, lo: usize, hi: usize, from: usize) -> (r: usize)
    requires
        lo <= from <= hi <= cs.len(),
    ensures
        from <= r <= hi,
        r - lo == skip_spaces(cs@.subrange(lo as int, hi as int), from - lo),
{
    let ghost p = cs@.subrange(lo as int, hi as int);
    let mut i: usize = from;
    while i < hi && char_is_space(cs[i])
        invariant
            lo <= from <= i <= hi <= cs.len(),
            p == cs@.subrange(lo as int, hi as int),
            skip_spaces(p, from - lo) == skip_spaces(p, i - lo),
        decreases hi - i,
    {
        assert(p[i - lo] == cs@[i as int]);
        i = i + 1;
    }
    assert(i < hi ==> p[i - lo] == cs@[i as int]);
    i
}

/// Skips a field in the entry `cs[lo..hi]`, starting at `from`.
fn after_word(cs: &Vec<char>, lo: usize, hi: usize, from: usize) -> (r: usize)
    requires
        lo <= from <= hi <= cs.len(),
    ensures
        from <= r <= hi,
        r - lo == skip_word(cs@.subrange(lo as int, hi as int), from - lo),
{
    let ghost p = cs@.subrange(lo as int, hi as int);
    let mut i: usize = from;
    while i < hi && !char_is_space(cs[i])
        invariant
            lo <= from <= i <= hi <= cs.len(),
            p == cs@.subrange(lo as int, hi as int),
            skip_word(p, from - lo) == skip_word(p, i - lo),
        decreases hi - i,
    {
        assert(p[i - lo] == cs@[i as int]);
        i = i + 1;
    }
    assert(i < hi ==> p[i - lo] == cs@[i as int]);
    i
}

/// Reads the entry `cs[lo..hi]` of `all_data`: its key text if it is an RSA
/// entry with key data, nothing if it is no RSA entry.
fn read_entry(all_data: &str, cs: &Vec<char>, lo: usize, hi: usize) -> (r: Result<
    Option<String>,
    Error,
>)
    requires
        cs@ == all_data@,
        lo <= hi <= cs.len(),
    ensures
        ({
            let p = cs@.subrange(lo as int, hi as int);
            match r {
                Ok(Some(k)) => entry_is_rsa(p) && !entry_malformed(p) && k@ == canonical_key(p),
                Ok(None) => !entry_is_rsa(p),
                Err(e) => entry_malformed(p) && e == Error::KeyParse(ParseFault::KeyList),
            }
        }),
{
    let ghost p = cs@.subrange(lo as int, hi as int);
    let a = after_spaces(cs, lo, hi, lo);
    let b = after_word(cs, lo, hi, a);
    let tagged = b - a >= 3 && cs[a] == 'r' && cs[a + 1] == 's' && cs[a + 2] == 'a';
    assert(tag_field(p) =~= cs@.subrange(a as int, b as int));
    if !tagged {
        return Ok(None);
    }
    let c = after_spaces(cs, lo, hi, b);
    let d = after_word(cs, lo, hi, c);
    assert(data_field(p) =~= cs@.subrange(c as int, d as int));
    if d == c {
        return Err(Error::KeyParse(ParseFault::KeyList));
    }
    let mut k = String::from_str("ssh-rsa ");
    k.append(all_data.substring_char(c, d));
    k.append("\n");
    proof {
        reveal_strlit("ssh-rsa ");
        reveal_strlit("\n");
        assert("ssh-rsa "@ =~= seq!['s', 's', 'h', '-', 'r', 's', 'a', ' ']);
        assert("\n"@ =~= seq!['\n']);
    }
    Ok(Some(k))
}

/// Whether the marker stands in `cs` at `i`.
fn marker_here(cs: &Vec<char>, i: usize) -> (b: bool)
    requires
        i <= cs.len(),
    ensures
        b == marker_at(cs@, i as int),
{
    cs.len() - i >= 4 && cs[i] == 's' && cs[i + 1] == 's' && cs[i + 2] == 'h' && cs[i + 3] == '-'
}

/// Reads a key list: the single-line key texts of its RSA entries, in order.
///
/// Fails exactly when some RSA entry carries no key data. Entries of other
/// algorithms, and entries without any field, are passed over.
pub fn parse_keys(all_data: &str) -> (r: Result<Vec<String>, Error>)
    ensures
        match r {
            Ok(keys) => !has_malformed(entries(all_data@)) && keys.deep_view() == rsa_keys(
                entries(all_data@),
            ),
            Err(e) => has_malformed(entries(all_data@)) && e == Error::KeyParse(
                ParseFault::KeyList,
            ),
        },
{
    let cs = chars_of(all_data);
    let n = cs.len();
    let mut keys: Vec<String> = Vec::new();
    let mut start: usize = 0;
    let mut i: usize = 0;
    let ghost mut done: Seq<Seq<char>> = Seq::empty();
    proof {
        lemma_rsa_keys_empty();
        assert(keys.deep_view() =~= rsa_keys(done));
        assert(entries(cs@) =~= done + split_from(cs@, 0, 0));
    }
    loop
        invariant
            cs@ == all_data@,
            n == cs.len(),
            start <= i <= n,
            entries(cs@) == done + split_from(cs@, start as int, i as int),
            !has_malformed(done),
            keys.deep_view() == rsa_keys(done),
        decreases n - i,
    {
        if i < n && !marker_here(&cs, i) {
            i = i + 1;
        } else {
            let ghost p = cs@.subrange(start as int, i as int);
            let ghost rest = if i < n {
                split_from(cs@, i + 4, i + 4)
            } else {
                Seq::empty()
            };
            assert(entries(cs@) =~= done.push(p) + rest);
            let found = read_entry(all_data, &cs, start, i);
            match found {
                Err(e) => {
                    assert(entry_malformed(entries(cs@)[done.len() as int]));
                    return Err(e);
                },
                Ok(Some(k)) => {
                    let ghost before = keys.deep_view();
                    keys.push(k);
                    assert(keys.deep_view() =~= before.push(k@));
                },
                Ok(None) => {},
            }
            proof {
                lemma_rsa_keys_push(done, p);
                assert forall|j: int| 0 <= j < done.push(p).len() implies !entry_malformed(
                    #[trigger] done.push(p)[j],
                ) by {
                    if j < done.len() {
                        assert(done.push(p)[j] == done[j]);
                    }
                }
                done = done.push(p);
            }
            if i >= n {
                assert(entries(cs@) =~= done);
                return Ok(keys);
            }
            start = i + 4;
            i = i + 4;
        }
    }
}

} // verus!
