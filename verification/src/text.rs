//! Small text utilities shared by the modules: characters of a string, pushing a
//! character, decimal numerals and whitespace trimming.

use vstd::prelude::*;
use vstd::std_specs::iter::IteratorSpec;

verus! {

broadcast use vstd::string::group_string_axioms;

/// `String::push`: appends one character.
#[verifier::external_body]
pub fn push_char(s: &mut String, c: char)
    ensures
        final(s)@ == old(s)@.push(c),
{
    s.push(c);
}

/// Whether a character has the Unicode `White_Space` property, as
/// `char::is_whitespace` tests: tab through carriage return, space, next line,
/// no-break space, ogham space mark, the spaces U+2000 to U+200A, the line and
/// paragraph separators, narrow no-break space, medium mathematical space and
/// ideographic space.
pub open spec fn is_white_space(c: char) -> bool {
    let u = c as u32;
    (0x09 <= u <= 0x0d) || u == 0x20 || u == 0x85 || u == 0xa0 || u == 0x1680 || (0x2000 <= u
        <= 0x200a) || u == 0x2028 || u == 0x2029 || u == 0x202f || u == 0x205f || u == 0x3000
}

/// `char::is_whitespace`.
pub fn char_is_whitespace(c: char) -> (r: bool)
    ensures
        r == is_white_space(c),
{
    let u = c as u32;
    (0x09 <= u && u <= 0x0d) || u == 0x20 || u == 0x85 || u == 0xa0 || u == 0x1680 || (0x2000 <= u
        && u <= 0x200a) || u == 0x2028 || u == 0x2029 || u == 0x202f || u == 0x205f || u == 0x3000
}

/// The characters of a string, in order.
pub fn chars_of(s: &str) -> (v: Vec<char>)
    ensures
        v@ == s@,
{
    let mut it = s.chars();
    let mut v: Vec<char> = Vec::new();
    loop
        invariant
            it.remaining() == s@.skip(v@.len() as int),
            v@ == s@.take(v@.len() as int),
            v@.len() <= s@.len(),
        ensures
            v@ == s@,
        decreases s@.len() - v@.len(),
    {
        let ghost before = it.remaining();
        match it.next() {
            Some(c) => {
                proof {
                    assert(before.len() > 0);
                    assert(c == s@[v@.len() as int]);
                }
                v.push(c);
                assert(v@ =~= s@.take(v@.len() as int));
                assert(it.remaining() =~= s@.skip(v@.len() as int));
            },
            None => {
                assert(before.len() == 0);
                assert(v@ =~= s@);
                break;
            },
        }
    }
    v
}

/// A string holding exactly the given characters.
pub fn string_of_chars(chars: &[char]) -> (s: String)
    ensures
        s@ == chars@,
{
    let mut s = String::new();
    let mut i: usize = 0;
    while i < chars.len()
        invariant
            i <= chars@.len(),
            s@ == chars@.take(i as int),
        decreases chars@.len() - i,
    {
        push_char(&mut s, chars[i]);
        assert(s@ =~= chars@.take(i + 1));
        i = i + 1;
    }
    assert(chars@.take(chars@.len() as int) =~= chars@);
    s
}

/// The characters `s[from..to]` as a string.
pub fn substring(chars: &[char], from: usize, to: usize) -> (s: String)
    requires
        from <= to <= chars@.len(),
    ensures
        s@ == chars@.subrange(from as int, to as int),
{
    let mut s = String::new();
    let mut i: usize = from;
    while i < to
        invariant
            from <= i <= to <= chars@.len(),
            s@ == chars@.subrange(from as int, i as int),
        decreases to - i,
    {
        push_char(&mut s, chars[i]);
        assert(s@ =~= chars@.subrange(from as int, i + 1));
        i = i + 1;
    }
    s
}

/// The decimal digit character for `d < 10`.
pub open spec fn digit_char(d: nat) -> char {
    if d == 0 { '0' }
    else if d == 1 { '1' }
    else if d == 2 { '2' }
    else if d == 3 { '3' }
    else if d == 4 { '4' }
    else if d == 5 { '5' }
    else if d == 6 { '6' }
    else if d == 7 { '7' }
    else if d == 8 { '8' }
    else { '9' }
}

/// The decimal numeral of `n`, without leading zeros.
pub open spec fn decimal_text(n: nat) -> Seq<char>
    decreases n,
{
    if n < 10 {
        seq![digit_char(n)]
    } else {
        decimal_text(n / 10).push(digit_char(n % 10))
    }
}

fn digit(d: u64) -> (c: char)
    requires
        d < 10,
    ensures
        c == digit_char(d as nat),
{
    if d == 0 { '0' }
    else if d == 1 { '1' }
    else if d == 2 { '2' }
    else if d == 3 { '3' }
    else if d == 4 { '4' }
    else if d == 5 { '5' }
    else if d == 6 { '6' }
    else if d == 7 { '7' }
    else if d == 8 { '8' }
    else { '9' }
}

/// Appends the decimal numeral of `n`.
pub fn push_decimal(s: &mut String, n: u64)
    ensures
        final(s)@ == old(s)@ + decimal_text(n as nat),
    decreases n,
{
    if n < 10 {
        push_char(s, digit(n));
        assert(final(s)@ =~= old(s)@ + decimal_text(n as nat));
    } else {
        push_decimal(s, n / 10);
        push_char(s, digit(n % 10));
        assert(final(s)@ =~= old(s)@ + decimal_text(n as nat));
    }
}

/// The decimal numeral of `n`.
pub fn decimal(n: u64) -> (s: String)
    ensures
        s@ == decimal_text(n as nat),
{
    let mut s = String::new();
    push_decimal(&mut s, n);
    assert(s@ =~= decimal_text(n as nat));
    s
}

/// `s` without leading white space.
pub open spec fn trim_start_spec(s: Seq<char>) -> Seq<char>
    decreases s.len(),
{
    if s.len() > 0 && is_white_space(s[0]) {
        trim_start_spec(s.drop_first())
    } else {
        s
    }
}

/// `s` without trailing white space.
pub open spec fn trim_end_spec(s: Seq<char>) -> Seq<char>
    decreases s.len(),
{
    if s.len() > 0 && is_white_space(s.last()) {
        trim_end_spec(s.drop_last())
    } else {
        s
    }
}

/// `s` without leading and trailing white space (what `str::trim` gives).
pub open spec fn trim_spec(s: Seq<char>) -> Seq<char> {
    trim_end_spec(trim_start_spec(s))
}

/// `str::trim`: removes leading and trailing white space.
pub fn trim(s: &str) -> (r: String)
    ensures
        r@ == trim_spec(s@),
{
    let chars = chars_of(s);
    let mut a: usize = 0;
    assert(s@.subrange(0, s@.len() as int) =~= s@);
    while a < chars.len() && char_is_whitespace(chars[a])
        invariant
            a <= chars@.len(),
            chars@ == s@,
            trim_start_spec(s@) == trim_start_spec(s@.subrange(a as int, s@.len() as int)),
        decreases chars@.len() - a,
    {
        assert(s@.subrange(a as int, s@.len() as int).drop_first() =~= s@.subrange(a + 1, s@.len() as int));
        a = a + 1;
    }
    let ghost t = s@.subrange(a as int, s@.len() as int);
    assert(trim_start_spec(t) == t);
    let mut b: usize = chars.len();
    assert(t.subrange(0, (b - a) as int) =~= t);
    while b > a && char_is_whitespace(chars[b - 1])
        invariant
            a <= b <= chars@.len(),
            chars@ == s@,
            t == s@.subrange(a as int, s@.len() as int),
            trim_end_spec(t) == trim_end_spec(s@.subrange(a as int, b as int)),
        decreases b - a,
    {
        assert(s@.subrange(a as int, b as int).drop_last() =~= s@.subrange(a as int, b - 1));
        b = b - 1;
    }
    substring(chars.as_slice(), a, b)
}

/// Lexicographic order of texts by code point, as `str`'s `Ord` orders them
/// (UTF-8 keeps the order of code points).
pub open spec fn text_le(a: Seq<char>, b: Seq<char>) -> bool
    decreases a.len(),
{
    if a.len() == 0 {
        true
    } else if b.len() == 0 {
        false
    } else if a[0] != b[0] {
        a[0] < b[0]
    } else {
        text_le(a.drop_first(), b.drop_first())
    }
}

/// The order of texts is the lexicographic order of `str`: `a` comes before `b`,
/// or equals it, exactly when `a` is a prefix of `b` (the empty text and every
/// proper prefix come first), or when at the first position where they differ
/// `a` holds the smaller character.
pub proof fn lemma_text_le_lexicographic(a: Seq<char>, b: Seq<char>)
    ensures
        text_le(a, b) <==> (a.is_prefix_of(b) || exists|i: int|
            0 <= i < a.len() && i < b.len() && a.take(i) == b.take(i) && #[trigger] a[i] < b[i]),
    decreases a.len(),
{
    if a.len() == 0 {
        assert(a.is_prefix_of(b)) by {
            assert(b.take(0) =~= a);
        }
    } else if b.len() == 0 {
        assert(!a.is_prefix_of(b));
    } else if a[0] != b[0] {
        assert(!a.is_prefix_of(b)) by {
            if a.is_prefix_of(b) {
                assert(b.take(a.len() as int)[0] == b[0]);
            }
        }
        if a[0] < b[0] {
            assert(a.take(0) =~= b.take(0));
        } else {
            if exists|i: int|
                0 <= i < a.len() && i < b.len() && a.take(i) == b.take(i) && #[trigger] a[i] < b[i] {
                let i = choose|i: int|
                    0 <= i < a.len() && i < b.len() && a.take(i) == b.take(i) && #[trigger] a[i] < b[i];
                if i > 0 {
                    assert(a.take(i)[0] == b.take(i)[0]);
                }
            }
        }
    } else {
        let a1 = a.drop_first();
        let b1 = b.drop_first();
        lemma_text_le_lexicographic(a1, b1);
        assert(a.is_prefix_of(b) <==> a1.is_prefix_of(b1)) by {
            if a.is_prefix_of(b) {
                assert(b1.take(a1.len() as int) =~= a1) by {
                    assert forall|k: int| 0 <= k < a1.len() implies b1.take(a1.len() as int)[k] == a1[k] by {
                        assert(b.take(a.len() as int)[k + 1] == a[k + 1]);
                    }
                }
            }
            if a1.is_prefix_of(b1) {
                assert(b.take(a.len() as int) =~= a) by {
                    assert forall|k: int| 0 <= k < a.len() implies b.take(a.len() as int)[k] == a[k] by {
                        if k > 0 {
                            assert(b1.take(a1.len() as int)[k - 1] == a1[k - 1]);
                        }
                    }
                }
            }
        }
        if exists|i: int|
            0 <= i < a.len() && i < b.len() && a.take(i) == b.take(i) && #[trigger] a[i] < b[i] {
            let i = choose|i: int|
                0 <= i < a.len() && i < b.len() && a.take(i) == b.take(i) && #[trigger] a[i] < b[i];
            assert(i > 0);
            assert(a1.take(i - 1) =~= b1.take(i - 1)) by {
                assert forall|k: int| 0 <= k < i - 1 implies #[trigger] a1.take(i - 1)[k] == b1.take(i - 1)[k] by {
                    assert(a.take(i)[k + 1] == b.take(i)[k + 1]);
                }
            }
            assert(a1[i - 1] < b1[i - 1]);
        }
        if exists|j: int|
            0 <= j < a1.len() && j < b1.len() && a1.take(j) == b1.take(j) && #[trigger] a1[j] < b1[j] {
            let j = choose|j: int|
                0 <= j < a1.len() && j < b1.len() && a1.take(j) == b1.take(j) && #[trigger] a1[j] < b1[j];
            assert(a.take(j + 1) =~= b.take(j + 1)) by {
                assert forall|k: int| 0 <= k < j + 1 implies #[trigger] a.take(j + 1)[k] == b.take(j + 1)[k] by {
                    if k > 0 {
                        assert(a1.take(j)[k - 1] == b1.take(j)[k - 1]);
                    }
                }
            }
            assert(a[j + 1] < b[j + 1]);
        }
    }
}

/// In particular, a text comes before every text it is a prefix of.
pub proof fn lemma_text_le_prefix(a: Seq<char>, b: Seq<char>)
    requires
        a.is_prefix_of(b),
    ensures
        text_le(a, b),
{
    lemma_text_le_lexicographic(a, b);
}

pub proof fn lemma_text_le_total(a: Seq<char>, b: Seq<char>)
    ensures
        text_le(a, b) || text_le(b, a),
    decreases a.len(),
{
    if a.len() > 0 && b.len() > 0 && a[0] == b[0] {
        lemma_text_le_total(a.drop_first(), b.drop_first());
    }
}

pub proof fn lemma_text_le_transitive(a: Seq<char>, b: Seq<char>, c: Seq<char>)
    requires
        text_le(a, b),
        text_le(b, c),
    ensures
        text_le(a, c),
    decreases a.len(),
{
    if a.len() > 0 && b.len() > 0 && c.len() > 0 && a[0] == b[0] && b[0] == c[0] {
        lemma_text_le_transitive(a.drop_first(), b.drop_first(), c.drop_first());
    }
}

/// Whether texts are in ascending order.
pub open spec fn texts_sorted(s: Seq<Seq<char>>) -> bool {
    forall|i: int, j: int| 0 <= i < j < s.len() ==> text_le(#[trigger] s[i], #[trigger] s[j])
}

/// The models of a sequence of strings.
pub open spec fn texts_of(v: Seq<String>) -> Seq<Seq<char>> {
    v.map_values(|s: String| s@)
}

/// Whether `a` comes before `b` or equals it, by code point.
pub fn text_le_exec(a: &String, b: &String) -> (r: bool)
    ensures
        r == text_le(a@, b@),
{
    let x = chars_of(a.as_str());
    let y = chars_of(b.as_str());
    let mut i: usize = 0;
    assert(a@.skip(0) =~= a@);
    assert(b@.skip(0) =~= b@);
    while i < x.len() && i < y.len() && x[i] == y[i]
        invariant
            i <= x@.len(),
            i <= y@.len(),
            x@ == a@,
            y@ == b@,
            text_le(a@, b@) == text_le(a@.skip(i as int), b@.skip(i as int)),
        decreases x@.len() - i,
    {
        assert(a@.skip(i as int).drop_first() =~= a@.skip(i + 1));
        assert(b@.skip(i as int).drop_first() =~= b@.skip(i + 1));
        i = i + 1;
    }
    if i == x.len() {
        true
    } else if i == y.len() {
        false
    } else {
        assert(a@.skip(i as int)[0] == x@[i as int]);
        assert(b@.skip(i as int)[0] == y@[i as int]);
        x[i] < y[i]
    }
}

/// The strings in ascending order (insertion sort).
pub fn sort_texts(v: Vec<String>) -> (r: Vec<String>)
    ensures
        texts_sorted(texts_of(r@)),
        texts_of(r@).to_multiset() == texts_of(v@).to_multiset(),
{
    broadcast use vstd::seq_lib::group_to_multiset_ensures;

    let mut out: Vec<String> = Vec::new();
    let mut i: usize = 0;
    assert(texts_of(v@).take(0) =~= texts_of(out@));
    while i < v.len()
        invariant
            i <= v@.len(),
            texts_sorted(texts_of(out@)),
            texts_of(out@).to_multiset() == texts_of(v@).take(i as int).to_multiset(),
        decreases v@.len() - i,
    {
        let x = v[i].clone();
        let ghost o = texts_of(out@);
        let mut p: usize = 0;
        while p < out.len() && text_le_exec(&out[p], &x)
            invariant
                p <= out@.len(),
                o == texts_of(out@),
                forall|k: int| 0 <= k < p ==> text_le(#[trigger] o[k], x@),
            decreases out@.len() - p,
        {
            p = p + 1;
        }
        proof {
            if p < out@.len() {
                lemma_text_le_total(o[p as int], x@);
            }
        }
        out.insert(p, x);
        let ghost n = texts_of(out@);
        assert(n =~= o.insert(p as int, x@));
        assert forall|a: int, b: int| 0 <= a < b < n.len() implies text_le(
            #[trigger] n[a],
            #[trigger] n[b],
        ) by {
            if b < p {
                assert(n[a] == o[a] && n[b] == o[b]);
            } else if b == p {
                assert(n[a] == o[a]);
            } else if a == p {
                assert(n[b] == o[b - 1]);
                if b - 1 > p {
                    assert(text_le(o[p as int], o[b - 1]));
                    lemma_text_le_transitive(x@, o[p as int], o[b - 1]);
                }
            } else if a < p {
                assert(n[a] == o[a] && n[b] == o[b - 1]);
            } else {
                assert(n[a] == o[a - 1] && n[b] == o[b - 1]);
            }
        }
        assert(texts_of(v@).take(i + 1) =~= texts_of(v@).take(i as int).push(v@[i as int]@));
        proof {
            vstd::seq_lib::to_multiset_insert(o, p as int, x@);
            vstd::seq_lib::to_multiset_build(texts_of(v@).take(i as int), x@);
        }
        i = i + 1;
    }
    assert(texts_of(v@).take(i as int) =~= texts_of(v@));
    out
}

} // verus!
