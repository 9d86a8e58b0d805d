//! Character-level helpers shared by the rule engine and the secret parser.

use vstd::prelude::*;
use vstd::std_specs::iter::IteratorSpec;
use vstd::utf8::is_ascii_chars;

verus! {

/// `needle` occurs in `haystack` as a contiguous run of characters.
pub open spec fn seq_contains(haystack: Seq<char>, needle: Seq<char>) -> bool {
    exists|i: int| 0 <= i <= haystack.len() - needle.len() && #[trigger] occurs_at(haystack, needle, i)
}

/// `needle` occurs in `haystack` starting at position `i`.
pub open spec fn occurs_at(haystack: Seq<char>, needle: Seq<char>, i: int) -> bool {
    haystack.subrange(i, i + needle.len()) == needle
}

/// The Unicode lowercase mapping of a string, as computed by `str::to_lowercase`.
pub uninterp spec fn lower_of(s: Seq<char>) -> Seq<char>;

/// The ASCII lowercase of `c`: `A` to `Z` become `a` to `z`, every other
/// character stays.
pub open spec fn ascii_lower_char(c: char) -> char {
    if 'A' <= c <= 'Z' {
        seq!['a', 'b', 'c', 'd', 'e', 'f', 'g', 'h', 'i', 'j', 'k', 'l', 'm', 'n', 'o', 'p', 'q', 'r', 's', 't', 'u', 'v', 'w', 'x', 'y', 'z'][(c as u32 - 'A' as u32) as int]
    } else {
        c
    }
}

/// What lower-casing makes of a string: character by character the ASCII
/// lowercase for ASCII text, Unicode's lowercase mapping otherwise.
pub open spec fn case_folded(s: Seq<char>) -> Seq<char> {
    if is_ascii_chars(s) {
        s.map_values(|c: char| ascii_lower_char(c))
    } else {
        lower_of(s)
    }
}

/// Relies on `str::to_lowercase`: Unicode's lowercase mapping, which depends
/// on the characters alone and on ASCII text is the ASCII lowercase of each
/// character.
#[verifier::external_body]
pub(crate) fn lowercase(s: &str) -> (r: String)
    ensures
        r@ == case_folded(s@),
        !is_ascii_chars(s@) ==> r@ == lower_of(s@),
{
    s.to_lowercase()
}

/// `c` has the Unicode White_Space property.
pub open spec fn is_white_space(c: char) -> bool {
    let u = c as u32;
    ||| 0x9 <= u <= 0xd
    ||| u == 0x20
    ||| u == 0x85
    ||| u == 0xa0
    ||| u == 0x1680
    ||| 0x2000 <= u <= 0x200a
    ||| u == 0x2028
    ||| u == 0x2029
    ||| u == 0x202f
    ||| u == 0x205f
    ||| u == 0x3000
}

/// `s` without its leading white space.
pub open spec fn trim_start_of(s: Seq<char>) -> Seq<char>
    decreases s.len(),
{
    if s.len() > 0 && is_white_space(s[0]) {
        trim_start_of(s.drop_first())
    } else {
        s
    }
}

/// `s` without its trailing white space.
pub open spec fn trim_end_of(s: Seq<char>) -> Seq<char>
    decreases s.len(),
{
    if s.len() > 0 && is_white_space(s.last()) {
        trim_end_of(s.drop_last())
    } else {
        s
    }
}

/// What `str::trim` leaves of a string: the part between the first and the
/// last character that is not white space.
pub open spec fn trim_of(s: Seq<char>) -> Seq<char> {
    trim_end_of(trim_start_of(s))
}

/// Trimming the start leaves a suffix that does not start with white space.
pub proof fn trim_start_is_suffix(s: Seq<char>)
    ensures
        trim_start_of(s).len() <= s.len(),
        trim_start_of(s) == s.subrange(s.len() - trim_start_of(s).len(), s.len() as int),
        trim_start_of(s).len() == 0 || !is_white_space(trim_start_of(s)[0]),
    decreases s.len(),
{
    if s.len() > 0 && is_white_space(s[0]) {
        trim_start_is_suffix(s.drop_first());
        let t = trim_start_of(s);
        assert(s.drop_first().subrange(s.len() - 1 - t.len(), s.len() - 1) =~= s.subrange(
            s.len() - t.len(),
            s.len() as int,
        ));
    } else {
        assert(s.subrange(0, s.len() as int) =~= s);
    }
}

/// Trimming the end leaves a prefix that does not end with white space.
pub proof fn trim_end_is_prefix(s: Seq<char>)
    ensures
        trim_end_of(s).len() <= s.len(),
        trim_end_of(s) == s.subrange(0, trim_end_of(s).len() as int),
        trim_end_of(s).len() == 0 || !is_white_space(trim_end_of(s).last()),
    decreases s.len(),
{
    if s.len() > 0 && is_white_space(s.last()) {
        trim_end_is_prefix(s.drop_last());
        let t = trim_end_of(s);
        assert(s.drop_last().subrange(0, t.len() as int) =~= s.subrange(0, t.len() as int));
    } else {
        assert(s.subrange(0, s.len() as int) =~= s);
    }
}

/// A trimmed string is left as it is by trimming, and holds only characters
/// of the string it came from.
pub proof fn trim_of_is_trimmed_part(s: Seq<char>, c: char)
    ensures
        trim_of(trim_of(s)) == trim_of(s),
        !s.contains(c) ==> !trim_of(s).contains(c),
{
    let a = trim_start_of(s);
    let t = trim_end_of(a);
    trim_start_is_suffix(s);
    trim_end_is_prefix(a);
    trim_end_is_prefix(t);
    if t.len() > 0 {
        assert(t[0] == a[0]);
    }
    assert(trim_start_of(t) == t);
    assert(trim_end_of(t) == t);
    if !s.contains(c) && t.contains(c) {
        let j = choose|j: int| 0 <= j < t.len() && t[j] == c;
        assert(a[j] == c);
        assert(s[s.len() - a.len() + j] == c);
    }
}

proof fn trim_start_skips(s: Seq<char>, a: int)
    requires
        0 <= a <= s.len(),
        forall|k: int| 0 <= k < a ==> is_white_space(s[k]),
        a == s.len() || !is_white_space(s[a]),
    ensures
        trim_start_of(s) == s.subrange(a, s.len() as int),
    decreases a,
{
    if a == 0 {
        assert(s.subrange(0, s.len() as int) =~= s);
    } else {
        let t = s.drop_first();
        assert forall|k: int| 0 <= k < a - 1 implies is_white_space(t[k]) by {
            assert(t[k] == s[k + 1]);
        }
        if a < s.len() {
            assert(t[a - 1] == s[a]);
        }
        trim_start_skips(t, a - 1);
        assert(t.subrange(a - 1, t.len() as int) =~= s.subrange(a, s.len() as int));
    }
}

proof fn trim_end_skips(s: Seq<char>, b: int)
    requires
        0 <= b <= s.len(),
        forall|k: int| b <= k < s.len() ==> is_white_space(s[k]),
        b == 0 || !is_white_space(s[b - 1]),
    ensures
        trim_end_of(s) == s.subrange(0, b),
    decreases s.len() - b,
{
    if b == s.len() {
        assert(s.subrange(0, b) =~= s);
    } else {
        let t = s.drop_last();
        trim_end_skips(t, b);
        assert(t.subrange(0, b) =~= s.subrange(0, b));
    }
}

/// Whether `c` has the Unicode White_Space property.
pub fn is_white_space_char(c: char) -> (r: bool)
    ensures
        r == is_white_space(c),
{
    let u = c as u32;
    (0x9 <= u && u <= 0xd) || u == 0x20 || u == 0x85 || u == 0xa0 || u == 0x1680 || (0x2000 <= u
        && u <= 0x200a) || u == 0x2028 || u == 0x2029 || u == 0x202f || u == 0x205f || u == 0x3000
}

/// `s` without leading and trailing white space, as `str::trim` gives it.
pub fn trimmed(s: &str) -> (r: &str)
    ensures
        r@ == trim_of(s@),
{
    let chars = chars_of(s);
    let n = chars.len();
    let mut a: usize = 0;
    while a < n && is_white_space_char(chars[a])
        invariant
            a <= n,
            n == s@.len(),
            chars@ == s@,
            forall|k: int| 0 <= k < a ==> is_white_space(s@[k]),
        decreases n - a,
    {
        a += 1;
    }
    let mut b: usize = n;
    while b > a && is_white_space_char(chars[b - 1])
        invariant
            a <= b <= n,
            n == s@.len(),
            chars@ == s@,
            forall|k: int| b <= k < n ==> is_white_space(s@[k]),
        decreases b,
    {
        b -= 1;
    }
    proof {
        trim_start_skips(s@, a as int);
        let t = s@.subrange(a as int, n as int);
        assert forall|k: int| b - a <= k < t.len() implies is_white_space(t[k]) by {
            assert(t[k] == s@[a + k]);
        }
        if b > a {
            assert(t[b - a - 1] == s@[b - 1]);
        }
        trim_end_skips(t, b - a);
        assert(t.subrange(0, b - a) =~= s@.subrange(a as int, b as int));
    }
    s.substring_char(a, b)
}

/// The decimal digit for `d`, which is below ten.
pub open spec fn digit_char(d: nat) -> char {
    seq!['0', '1', '2', '3', '4', '5', '6', '7', '8', '9'][d as int]
}

/// The decimal numeral of `n`, most significant digit first, without
/// leading zeros.
pub open spec fn decimal(n: nat) -> Seq<char>
    decreases n,
{
    if n < 10 {
        seq![digit_char(n)]
    } else {
        decimal(n / 10).push(digit_char(n % 10))
    }
}

/// The one-character text of the digit `d`.
fn digit_text(d: usize) -> (r: &'static str)
    requires
        d < 10,
    ensures
        r@ == seq![digit_char(d as nat)],
{
    match d {
        0 => {
            proof {
                reveal_strlit("0");
            }
            "0"
        },
        1 => {
            proof {
                reveal_strlit("1");
            }
            "1"
        },
        2 => {
            proof {
                reveal_strlit("2");
            }
            "2"
        },
        3 => {
            proof {
                reveal_strlit("3");
            }
            "3"
        },
        4 => {
            proof {
                reveal_strlit("4");
            }
            "4"
        },
        5 => {
            proof {
                reveal_strlit("5");
            }
            "5"
        },
        6 => {
            proof {
                reveal_strlit("6");
            }
            "6"
        },
        7 => {
            proof {
                reveal_strlit("7");
            }
            "7"
        },
        8 => {
            proof {
                reveal_strlit("8");
            }
            "8"
        },
        _ => {
            proof {
                reveal_strlit("9");
            }
            "9"
        },
    }
}

/// The decimal numeral of `n`.
pub fn decimal_text(n: usize) -> (r: String)
    ensures
        r@ == decimal(n as nat),
    decreases n,
{
    if n < 10 {
        digit_text(n).to_owned()
    } else {
        let mut r = decimal_text(n / 10);
        r.append(digit_text(n % 10));
        r
    }
}

/// The pieces of `s` between occurrences of `sep`, as `str::split` yields
/// them for a character: one more piece than there are separators, empty
/// pieces kept.
pub open spec fn split_on(s: Seq<char>, sep: char) -> Seq<Seq<char>>
    decreases s.len(),
{
    if s.len() == 0 {
        seq![Seq::empty()]
    } else {
        let init = split_on(s.drop_last(), sep);
        if s.last() == sep {
            init.push(Seq::empty())
        } else {
            init.update(init.len() - 1, init.last().push(s.last()))
        }
    }
}

/// No piece of a split holds the separator.
pub proof fn split_pieces_lack_sep(s: Seq<char>, sep: char)
    ensures
        forall|i: int|
            0 <= i < split_on(s, sep).len() ==> !(#[trigger] split_on(s, sep)[i]).contains(sep),
    decreases s.len(),
{
    if s.len() > 0 {
        split_pieces_lack_sep(s.drop_last(), sep);
        split_on_nonempty(s.drop_last(), sep);
        let init = split_on(s.drop_last(), sep);
        if s.last() != sep {
            let grown = init.last().push(s.last());
            assert(!init[init.len() - 1].contains(sep));
            assert(!grown.contains(sep)) by {
                if grown.contains(sep) {
                    let j = choose|j: int| 0 <= j < grown.len() && grown[j] == sep;
                    if j < grown.len() - 1 {
                        assert(init.last()[j] == sep);
                    }
                }
            }
        } else {
            assert(!Seq::<char>::empty().contains(sep));
        }
        assert forall|i: int| 0 <= i < split_on(s, sep).len() implies !(#[trigger] split_on(
            s,
            sep,
        )[i]).contains(sep) by {
            if i < init.len() - 1 || (s.last() == sep && i < init.len()) {
                assert(split_on(s, sep)[i] == init[i]);
            }
        }
    }
}

/// Splitting always yields at least one piece.
pub proof fn split_on_nonempty(s: Seq<char>, sep: char)
    ensures
        split_on(s, sep).len() >= 1,
    decreases s.len(),
{
    if s.len() > 0 {
        split_on_nonempty(s.drop_last(), sep);
    }
}

/// The characters of each string, in order.
pub open spec fn string_texts(v: Seq<String>) -> Seq<Seq<char>> {
    v.map_values(|s: String| s@)
}

/// The characters of each slice, in order.
pub open spec fn slice_texts(v: Seq<&str>) -> Seq<Seq<char>> {
    v.map_values(|t: &str| t@)
}

/// The pieces of `s` between occurrences of `sep`, empty pieces included.
pub fn split_text(s: &str, sep: char) -> (r: Vec<&str>)
    ensures
        slice_texts(r@) == split_on(s@, sep),
{
    let chars = chars_of(s);
    let mut pieces: Vec<&str> = Vec::new();
    let mut start: usize = 0;
    let mut k: usize = 0;
    assert(s@.subrange(0, 0) =~= Seq::<char>::empty());
    assert(slice_texts(pieces@) =~= Seq::<Seq<char>>::empty());
    assert(slice_texts(pieces@).push(s@.subrange(0, 0)) =~= seq![Seq::<char>::empty()]);
    while k < chars.len()
        invariant
            chars@ == s@,
            start <= k <= chars.len(),
            split_on(s@.subrange(0, k as int), sep) == slice_texts(pieces@).push(
                s@.subrange(start as int, k as int),
            ),
        decreases chars.len() - k,
    {
        let ghost prefix = s@.subrange(0, k + 1);
        let ghost before = slice_texts(pieces@);
        assert(prefix.drop_last() =~= s@.subrange(0, k as int));
        if chars[k] == sep {
            let piece = s.substring_char(start, k);
            pieces.push(piece);
            assert(slice_texts(pieces@) =~= before.push(piece@));
            start = k + 1;
            assert(s@.subrange(start as int, k + 1) =~= Seq::<char>::empty());
        } else {
            assert(s@.subrange(start as int, k + 1) =~= s@.subrange(start as int, k as int).push(
                chars@[k as int],
            ));
            assert(before.push(s@.subrange(start as int, k as int)).update(
                before.len() as int,
                s@.subrange(start as int, k + 1),
            ) =~= before.push(s@.subrange(start as int, k + 1)));
        }
        k += 1;
    }
    let ghost before = slice_texts(pieces@);
    let last = s.substring_char(start, chars.len());
    pieces.push(last);
    assert(slice_texts(pieces@) =~= before.push(last@));
    assert(s@.subrange(0, k as int) =~= s@);
    pieces
}

/// The characters of `s`, in order.
pub fn chars_of(s: &str) -> (r: Vec<char>)
    ensures
        r@ == s@,
{
    broadcast use vstd::string::axiom_spec_iter, vstd::string::next_postcondition;

    let mut r: Vec<char> = Vec::new();
    let mut it = s.chars();
    loop
        invariant
            r.len() <= s@.len(),
            it.remaining() == s@.subrange(r.len() as int, s@.len() as int),
            r@ == s@.subrange(0, r.len() as int),
        ensures
            r@ == s@,
        decreases s@.len() - r.len(),
    {
        match it.next() {
            Some(c) => {
                r.push(c);
                assert(r@ =~= s@.subrange(0, r.len() as int));
                assert(it.remaining() =~= s@.subrange(r.len() as int, s@.len() as int));
            },
            None => {
                assert(r@ =~= s@);
                break;
            },
        }
    }
    r
}

/// Whether `needle` occurs in `haystack`, as `str::contains` answers for a
/// string pattern. An empty needle occurs everywhere.
pub fn contains_text(haystack: &str, needle: &str) -> (r: bool)
    ensures
        r == seq_contains(haystack@, needle@),
{
    let h = chars_of(haystack);
    let n = chars_of(needle);
    contains_chars(&h, &n)
}

/// Whether the characters `n` occur in `h` as a contiguous run.
pub fn contains_chars(h: &Vec<char>, n: &Vec<char>) -> (r: bool)
    ensures
        r == seq_contains(h@, n@),
{
    if n.len() == 0 {
        assert(h@.subrange(0, 0) =~= n@);
        assert(occurs_at(h@, n@, 0));
        return true;
    }
    let mut i: usize = 0;
    while i <= h.len() && n.len() <= h.len() - i
        invariant
            i <= h.len() + 1,
            n.len() > 0,
            forall|k: int| 0 <= k < i ==> !#[trigger] occurs_at(h@, n@, k),
        decreases h.len() + 1 - i,
    {
        if occurs_here(h, n, i) {
            return true;
        }
        i += 1;
    }
    false
}

/// Whether `n` occurs in `h` starting at position `i`.
fn occurs_here(h: &Vec<char>, n: &Vec<char>, i: usize) -> (r: bool)
    requires
        i + n.len() <= h.len(),
    ensures
        r == occurs_at(h@, n@, i as int),
{
    let mut j: usize = 0;
    while j < n.len()
        invariant
            j <= n.len(),
            i + n.len() <= h.len(),
            forall|k: int| 0 <= k < j ==> h@[i + k] == n@[k],
        decreases n.len() - j,
    {
        if h[i + j] != n[j] {
            assert(h@.subrange(i as int, i + n.len())[j as int] != n@[j as int]);
            return false;
        }
        j += 1;
    }
    assert(h@.subrange(i as int, i + n.len()) =~= n@);
    true
}

} // verus!
