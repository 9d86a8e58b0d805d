//! The identity under which secrets are kept in the system credential store.

use crate::text::{
    chars_of, slice_texts, split_on, split_on_nonempty, split_text, string_texts,
};
use vstd::prelude::*;

verus! {

broadcast use vstd::seq_lib::group_to_multiset_ensures;

/// `a` comes no later than `b` in lexicographic order of code points, which
/// is the order of their UTF-8 bytes and so the order of `String`.
pub open spec fn text_le(a: Seq<char>, b: Seq<char>) -> bool
    decreases a.len(),
{
    if a.len() == 0 {
        true
    } else if b.len() == 0 {
        false
    } else if (a[0] as u32) != (b[0] as u32) {
        (a[0] as u32) < (b[0] as u32)
    } else {
        text_le(a.drop_first(), b.drop_first())
    }
}

/// Each text comes no later than every text after it.
pub open spec fn texts_sorted(v: Seq<Seq<char>>) -> bool {
    forall|i: int, j: int| 0 <= i < j < v.len() ==> text_le(#[trigger] v[i], #[trigger] v[j])
}

proof fn text_le_total(a: Seq<char>, b: Seq<char>)
    ensures
        text_le(a, b) || text_le(b, a),
    decreases a.len(),
{
    if a.len() > 0 && b.len() > 0 && (a[0] as u32) == (b[0] as u32) {
        text_le_total(a.drop_first(), b.drop_first());
    }
}

proof fn text_le_transitive(a: Seq<char>, b: Seq<char>, c: Seq<char>)
    requires
        text_le(a, b),
        text_le(b, c),
    ensures
        text_le(a, c),
    decreases a.len(),
{
    if a.len() > 0 && b.len() > 0 && c.len() > 0 && (a[0] as u32) == (b[0] as u32) && (b[0] as u32)
        == (c[0] as u32) {
        text_le_transitive(a.drop_first(), b.drop_first(), c.drop_first());
    }
}

proof fn text_le_after_common_prefix(a: Seq<char>, b: Seq<char>, i: int)
    requires
        0 <= i <= a.len(),
        i <= b.len(),
        forall|k: int| 0 <= k < i ==> (a[k] as u32) == (b[k] as u32),
    ensures
        text_le(a, b) == text_le(
            a.subrange(i, a.len() as int),
            b.subrange(i, b.len() as int),
        ),
    decreases i,
{
    if i > 0 {
        assert forall|k: int| 0 <= k < i - 1 implies (a.drop_first()[k] as u32) == (
        b.drop_first()[k] as u32) by {
            assert(a.drop_first()[k] == a[k + 1]);
            assert(b.drop_first()[k] == b[k + 1]);
        }
        text_le_after_common_prefix(a.drop_first(), b.drop_first(), i - 1);
        assert(a.drop_first().subrange(i - 1, a.len() - 1) =~= a.subrange(i, a.len() as int));
        assert(b.drop_first().subrange(i - 1, b.len() - 1) =~= b.subrange(i, b.len() as int));
    } else {
        assert(a.subrange(0, a.len() as int) =~= a);
        assert(b.subrange(0, b.len() as int) =~= b);
    }
}

/// Whether `a` comes no later than `b`.
pub fn text_le_exec(a: &str, b: &str) -> (r: bool)
    ensures
        r == text_le(a@, b@),
{
    let ca = chars_of(a);
    let cb = chars_of(b);
    let mut i: usize = 0;
    while i < ca.len() && i < cb.len() && (ca[i] as u32) == (cb[i] as u32)
        invariant
            i <= ca.len(),
            i <= cb.len(),
            ca@ == a@,
            cb@ == b@,
            forall|k: int| 0 <= k < i ==> (a@[k] as u32) == (b@[k] as u32),
        decreases ca.len() - i,
    {
        i += 1;
    }
    proof {
        text_le_after_common_prefix(a@, b@, i as int);
    }
    let ghost ra = a@.subrange(i as int, a@.len() as int);
    let ghost rb = b@.subrange(i as int, b@.len() as int);
    if i == ca.len() {
        assert(ra.len() == 0);
        true
    } else if i == cb.len() {
        assert(rb.len() == 0);
        false
    } else {
        assert(ra[0] == ca@[i as int]);
        assert(rb[0] == cb@[i as int]);
        (ca[i] as u32) < (cb[i] as u32)
    }
}

/// A line without the `\r` of a `\r\n` line break.
pub open spec fn without_cr(line: Seq<char>) -> Seq<char> {
    if line.len() > 0 && line.last() == '\r' {
        line.drop_last()
    } else {
        line
    }
}

/// Every piece but the last, each without its `\r`.
pub open spec fn ended_lines(pieces: Seq<Seq<char>>) -> Seq<Seq<char>> {
    pieces.drop_last().map_values(|p: Seq<char>| without_cr(p))
}

/// The lines of `content`: split at `\n`, a
/// `\r` before a `\n` dropped, and no empty line after a final `\n`.
pub open spec fn lines_of(content: Seq<char>) -> Seq<Seq<char>> {
    let pieces = split_on(content, '\n');
    let ended = ended_lines(pieces);
    if pieces.last().len() == 0 {
        ended
    } else {
        ended.push(pieces.last())
    }
}

/// `lines` joined with `\n` between each two.
pub open spec fn joined_lines(lines: Seq<Seq<char>>) -> Seq<char>
    decreases lines.len(),
{
    if lines.len() == 0 {
        Seq::empty()
    } else if lines.len() == 1 {
        lines[0]
    } else {
        joined_lines(lines.drop_last()) + "\n"@ + lines.last()
    }
}

/// The keys listed in the text of a key list file, one per line.
pub fn parse_key_list(content: &str) -> (r: Vec<String>)
    ensures
        string_texts(r@) == lines_of(content@),
{
    let pieces = split_text(content, '\n');
    let ghost ps = split_on(content@, '\n');
    proof {
        split_on_nonempty(content@, '\n');
    }
    let mut r: Vec<String> = Vec::new();
    let mut i: usize = 0;
    assert(string_texts(r@) =~= Seq::<Seq<char>>::empty());
    while i + 1 < pieces.len()
        invariant
            i + 1 <= pieces.len(),
            slice_texts(pieces@) == ps,
            string_texts(r@) == ended_lines(ps).take(i as int),
        decreases pieces.len() - i,
    {
        let ghost before = string_texts(r@);
        let piece = pieces[i];
        assert(ps[i as int] == piece@);
        let chars = chars_of(piece);
        let n = chars.len();
        let line = if n > 0 && chars[n - 1] == '\r' {
            piece.substring_char(0, n - 1)
        } else {
            piece
        };
        assert(line@ == without_cr(piece@)) by {
            if n > 0 && chars@[n - 1] == '\r' {
                assert(piece@.subrange(0, n - 1) =~= piece@.drop_last());
            }
        };
        r.push(line.to_owned());
        assert(string_texts(r@) =~= before.push(line@));
        assert(ended_lines(ps).take(i + 1) =~= ended_lines(ps).take(i as int).push(line@));
        i += 1;
    }
    assert(ended_lines(ps).take(i as int) =~= ended_lines(ps));
    let last = pieces[i];
    assert(last@ == ps.last());
    if !last.is_empty() {
        let ghost before = string_texts(r@);
        r.push(last.to_owned());
        assert(string_texts(r@) =~= before.push(last@));
    }
    r
}

/// The text of a key list file: the keys joined with `\n`.
pub fn key_list_text(keys: &Vec<String>) -> (r: String)
    ensures
        r@ == joined_lines(string_texts(keys@)),
{
    let mut r = String::new();
    let mut i: usize = 0;
    while i < keys.len()
        invariant
            i <= keys.len(),
            r@ == joined_lines(string_texts(keys@).take(i as int)),
        decreases keys.len() - i,
    {
        let ghost prefix = string_texts(keys@).take(i + 1);
        assert(prefix.drop_last() =~= string_texts(keys@).take(i as int));
        if i > 0 {
            r.append("\n");
        }
        r.append(keys[i].as_str());
        assert(i == 0 ==> string_texts(keys@).take(i as int) =~= Seq::<Seq<char>>::empty());
        assert(r@ =~= joined_lines(prefix));
        i += 1;
    }
    assert(string_texts(keys@).take(i as int) =~= string_texts(keys@));
    r
}

/// Places `key` into the sorted list `r`, keeping it sorted.
fn insert_sorted(r: &mut Vec<String>, key: String)
    requires
        texts_sorted(string_texts(old(r)@)),
    ensures
        texts_sorted(string_texts(final(r)@)),
        string_texts(final(r)@).to_multiset() == string_texts(old(r)@).to_multiset().insert(key@),
{
    let ghost before = string_texts(r@);
    let mut p: usize = 0;
    while p < r.len() && text_le_exec(r[p].as_str(), key.as_str())
        invariant
            p <= r.len(),
            string_texts(r@) == before,
            texts_sorted(before),
            forall|j: int| 0 <= j < p ==> text_le(#[trigger] before[j], key@),
        decreases r.len() - p,
    {
        p += 1;
    }
    proof {
        if p < before.len() {
            text_le_total(before[p as int], key@);
            assert forall|j: int| p <= j < before.len() implies text_le(key@, #[trigger] before[j]) by {
                if j > p {
                    text_le_transitive(key@, before[p as int], before[j]);
                }
            }
        }
    }
    r.insert(p, key);
    assert(string_texts(r@) =~= before.insert(p as int, key@));
}

/// The key list after storing `key`: unchanged when `key` is already in it,
/// else with `key` added and the whole list sorted.
pub fn add_key(keys: Vec<String>, key: &str) -> (r: Vec<String>)
    ensures
        string_texts(keys@).contains(key@) ==> string_texts(r@) == string_texts(keys@),
        !string_texts(keys@).contains(key@) ==> texts_sorted(string_texts(r@)) && string_texts(
            r@,
        ).to_multiset() == string_texts(keys@).push(key@).to_multiset(),
{
    let wanted = key.to_owned();
    let mut i: usize = 0;
    while i < keys.len()
        invariant
            i <= keys.len(),
            wanted@ == key@,
            forall|j: int| 0 <= j < i ==> keys@[j]@ != key@,
        decreases keys.len() - i,
    {
        if keys[i] == wanted {
            assert(string_texts(keys@)[i as int] == key@);
            return keys;
        }
        i += 1;
    }
    assert(!string_texts(keys@).contains(key@)) by {
        if string_texts(keys@).contains(key@) {
            let k = choose|k: int| 0 <= k < keys@.len() && string_texts(keys@)[k] == key@;
            assert(keys@[k]@ == key@);
        }
    }
    let mut r: Vec<String> = Vec::new();
    let mut i: usize = 0;
    assert(string_texts(r@) =~= Seq::<Seq<char>>::empty());
    while i < keys.len()
        invariant
            i <= keys.len(),
            texts_sorted(string_texts(r@)),
            string_texts(r@).to_multiset() == string_texts(keys@).take(i as int).to_multiset(),
        decreases keys.len() - i,
    {
        insert_sorted(&mut r, keys[i].clone());
        assert(string_texts(keys@).take(i + 1) =~= string_texts(keys@).take(i as int).push(
            keys@[i as int]@,
        ));
        i += 1;
    }
    assert(string_texts(keys@).take(i as int) =~= string_texts(keys@));
    insert_sorted(&mut r, key.to_owned());
    r
}

/// Names the credential-store service that holds this tool's secrets, and
/// the state file that lists their keys.
pub struct KeychainManager {
    service_name: String,
}

impl View for KeychainManager {
    type V = Seq<char>;

    closed spec fn view(&self) -> Seq<char> {
        self.service_name@
    }
}

impl KeychainManager {
    /// A manager for the service `service_name`.
    pub fn new(service_name: &str) -> (r: Self)
        ensures
            r@ == service_name@,
    {
        KeychainManager { service_name: service_name.to_owned() }
    }

    /// The service name.
    pub fn service_name(&self) -> (r: &str)
        ensures
            r@ == self@,
    {
        self.service_name.as_str()
    }

    /// The file name, inside the state directory, of the list of stored keys.
    pub fn keys_file_name(&self) -> (r: String)
        ensures
            r@ == self@ + ".keys"@,
    {
        let mut r = self.service_name.clone();
        r.append(".keys");
        r
    }
}

} // verus!
