//! Character-level helpers: whitespace trimming, splitting on a delimiter and
//! joining, each with a mathematical model over `Seq<char>`.

use vstd::prelude::*;
use vstd::string::*;
use vstd::utf8::{decode_utf8, encode_utf8, encode_utf8_decode_utf8, valid_utf8};

verus! {

/// Whether `c` has the Unicode `White_Space` property.
pub open spec fn is_whitespace(c: char) -> bool {
    let u = c as u32;
    ||| 0x09 <= u <= 0x0D
    ||| u == 0x20
    ||| u == 0x85
    ||| u == 0xA0
    ||| u == 0x1680
    ||| 0x2000 <= u <= 0x200A
    ||| u == 0x2028
    ||| u == 0x2029
    ||| u == 0x202F
    ||| u == 0x205F
    ||| u == 0x3000
}

/// Executable test for the `White_Space` property.
pub fn char_is_whitespace(c: char) -> (b: bool)
    ensures
        b == is_whitespace(c),
{
    let u: u32 = c as u32;
    (0x09 <= u && u <= 0x0D) || u == 0x20 || u == 0x85 || u == 0xA0 || u == 0x1680 || (0x2000 <= u
        && u <= 0x200A) || u == 0x2028 || u == 0x2029 || u == 0x202F || u == 0x205F || u == 0x3000
}

/// `s` without its leading whitespace.
pub open spec fn trim_start(s: Seq<char>) -> Seq<char>
    decreases s.len(),
{
    if s.len() > 0 && is_whitespace(s[0]) {
        trim_start(s.skip(1))
    } else {
        s
    }
}

/// `s` without its trailing whitespace.
pub open spec fn trim_end(s: Seq<char>) -> Seq<char>
    decreases s.len(),
{
    if s.len() > 0 && is_whitespace(s.last()) {
        trim_end(s.drop_last())
    } else {
        s
    }
}

/// `s` without leading and trailing whitespace.
pub open spec fn trim(s: Seq<char>) -> Seq<char> {
    trim_end(trim_start(s))
}

/// The characters of `s`, in order.
pub fn chars_of(s: &str) -> (v: Vec<char>)
    ensures
        v@ == s@,
{
    let mut v: Vec<char> = Vec::new();
    let it = s.chars();
    for c in iter: it
        invariant
            v@ == iter.seq().take(iter.index()),
            iter.seq() == s@,
    {
        v.push(c);
    }
    v
}

/// Whether two strings hold the same characters.
pub fn str_eq(a: &str, b: &str) -> (same: bool)
    ensures
        same == (a@ == b@),
{
    let x = a.as_bytes();
    let y = b.as_bytes();
    proof {
        encode_utf8_decode_utf8(a@);
        encode_utf8_decode_utf8(b@);
    }
    if x.len() != y.len() {
        return false;
    }
    let mut i: usize = 0;
    while i < x.len()
        invariant
            i <= x.len() == y.len(),
            x@ == encode_utf8(a@),
            y@ == encode_utf8(b@),
            forall|j: int| 0 <= j < i ==> x@[j] == y@[j],
        decreases x.len() - i,
    {
        if x[i] != y[i] {
            return false;
        }
        i += 1;
    }
    assert(x@ =~= y@);
    assert(decode_utf8(x@) == decode_utf8(y@));
    true
}

/// `String::from_utf8` of std: the string that `bytes` encode, where they
/// are UTF-8, and nothing where they are not.
#[verifier::external_body]
pub(crate) fn string_from_utf8(bytes: Vec<u8>) -> (r: Option<String>)
    ensures
        r is Some <==> valid_utf8(bytes@),
        r matches Some(s) ==> s@ == decode_utf8(bytes@),
{
    String::from_utf8(bytes).ok()
}

/// `String::push` of std appends one character to the string.
pub assume_specification[ String::push ](s: &mut String, c: char)
    ensures
        final(s)@ == old(s)@.push(c),
;

/// The string made of `chars[from..to]`.
pub fn string_of(chars: &Vec<char>, from: usize, to: usize) -> (s: String)
    requires
        from <= to <= chars.len(),
    ensures
        s@ == chars@.subrange(from as int, to as int),
{
    let mut s = String::new();
    let mut i: usize = from;
    while i < to
        invariant
            from <= i <= to <= chars.len(),
            s@ == chars@.subrange(from as int, i as int),
        decreases to - i,
    {
        s.push(chars[i]);
        i += 1;
    }
    s
}

/// A copy of `chars[from..to]`.
pub fn slice_of(chars: &Vec<char>, from: usize, to: usize) -> (v: Vec<char>)
    requires
        from <= to <= chars.len(),
    ensures
        v@ == chars@.subrange(from as int, to as int),
{
    let mut v: Vec<char> = Vec::new();
    let mut i: usize = from;
    while i < to
        invariant
            from <= i <= to <= chars.len(),
            v@ == chars@.subrange(from as int, i as int),
        decreases to - i,
    {
        v.push(chars[i]);
        i += 1;
    }
    v
}

proof fn lemma_trim_start(s: Seq<char>, i: int)
    requires
        0 <= i <= s.len(),
        forall|j: int| 0 <= j < i ==> is_whitespace(#[trigger] s[j]),
        i < s.len() ==> !is_whitespace(s[i]),
    ensures
        trim_start(s) == s.skip(i),
    decreases i,
{
    if i > 0 {
        let t = s.skip(1);
        assert forall|j: int| 0 <= j < i - 1 implies is_whitespace(#[trigger] t[j]) by {
            assert(t[j] == s[j + 1]);
        }
        lemma_trim_start(t, i - 1);
        assert(t.skip(i - 1) == s.skip(i));
    } else {
        assert(s.skip(0) == s);
    }
}

proof fn lemma_trim_end(s: Seq<char>, k: int)
    requires
        0 <= k <= s.len(),
        forall|j: int| k <= j < s.len() ==> is_whitespace(#[trigger] s[j]),
        k > 0 ==> !is_whitespace(s[k - 1]),
    ensures
        trim_end(s) == s.take(k),
    decreases s.len() - k,
{
    if k < s.len() {
        let t = s.drop_last();
        lemma_trim_end(t, k);
        assert(t.take(k) == s.take(k));
    } else {
        assert(s.take(k) == s);
    }
}

/// The bounds of `chars` without its leading and trailing whitespace.
pub fn trim_bounds(chars: &Vec<char>) -> (r: (usize, usize))
    ensures
        r.0 <= r.1 <= chars.len(),
        chars@.subrange(r.0 as int, r.1 as int) == trim(chars@),
{
    let n: usize = chars.len();
    let mut start: usize = 0;
    while start < n && char_is_whitespace(chars[start])
        invariant
            start <= n == chars.len(),
            forall|j: int| 0 <= j < start ==> is_whitespace(#[trigger] chars@[j]),
        decreases n - start,
    {
        start += 1;
    }
    let mut end: usize = n;
    while end > start && char_is_whitespace(chars[end - 1])
        invariant
            start <= end <= n == chars.len(),
            forall|j: int| end <= j < n ==> is_whitespace(#[trigger] chars@[j]),
        decreases end,
    {
        end -= 1;
    }
    proof {
        lemma_trim_start(chars@, start as int);
        let t = chars@.skip(start as int);
        lemma_trim_end(t, end - start);
        assert(t.take(end - start) == chars@.subrange(start as int, end as int));
    }
    (start, end)
}

/// The first line of `s`: what stands before the first line feed, or all of
/// `s` where it holds none.
pub open spec fn first_line(s: Seq<char>) -> Seq<char>
    decreases s.len(),
{
    if s.len() == 0 || s[0] == '\n' {
        Seq::empty()
    } else {
        seq![s[0]] + first_line(s.skip(1))
    }
}

proof fn lemma_first_line(s: Seq<char>, n: int)
    requires
        0 <= n <= s.len(),
        forall|j: int| 0 <= j < n ==> s[j] != '\n',
        n < s.len() ==> s[n] == '\n',
    ensures
        first_line(s) == s.take(n),
    decreases n,
{
    if n > 0 {
        let t = s.skip(1);
        assert forall|j: int| 0 <= j < n - 1 implies t[j] != '\n' by {
            assert(t[j] == s[j + 1]);
        }
        lemma_first_line(t, n - 1);
        assert(seq![s[0]] + t.take(n - 1) == s.take(n));
    } else {
        assert(s.take(0) == Seq::<char>::empty());
    }
}

/// The first line of `text` without the whitespace around it.
pub fn first_line_trimmed(text: &str) -> (line: String)
    ensures
        line@ == trim(first_line(text@)),
{
    let chars = chars_of(text);
    let mut n: usize = 0;
    while n < chars.len() && chars[n] != '\n'
        invariant
            n <= chars.len(),
            forall|j: int| 0 <= j < n ==> chars@[j] != '\n',
        decreases chars.len() - n,
    {
        n += 1;
    }
    proof {
        lemma_first_line(chars@, n as int);
    }
    let line = slice_of(&chars, 0, n);
    let (from, to) = trim_bounds(&line);
    string_of(&line, from, to)
}

/// The parts of `s` between the occurrences of `d`, found from the left and
/// not overlapping, scanning on from position `i` with the current part
/// starting at `start`.
pub open spec fn split_at(s: Seq<char>, d: Seq<char>, start: int, i: int) -> Seq<Seq<char>>
    recommends
        d.len() > 0,
        0 <= start <= i <= s.len(),
    decreases s.len() - i,
{
    if d.len() == 0 || i < 0 || i + d.len() > s.len() {
        seq![s.subrange(start, s.len() as int)]
    } else if s.subrange(i, i + d.len()) == d {
        seq![s.subrange(start, i)] + split_at(s, d, i + d.len(), i + d.len())
    } else {
        split_at(s, d, start, i + 1)
    }
}

/// The parts of `s` between the occurrences of the delimiter `d`. An empty
/// delimiter splits nothing: `s` is then the only part.
pub open spec fn split(s: Seq<char>, d: Seq<char>) -> Seq<Seq<char>> {
    split_at(s, d, 0, 0)
}

/// `parts` with `d` between each two neighbours.
pub open spec fn join(parts: Seq<Seq<char>>, d: Seq<char>) -> Seq<char>
    decreases parts.len(),
{
    if parts.len() == 0 {
        Seq::empty()
    } else if parts.len() == 1 {
        parts[0]
    } else {
        join(parts.drop_last(), d) + d + parts.last()
    }
}

/// Whether `d` stands in `s` at position `i`.
pub fn matches_at(s: &Vec<char>, i: usize, d: &Vec<char>) -> (b: bool)
    requires
        i + d.len() <= s.len(),
    ensures
        b == (s@.subrange(i as int, i + d.len()) == d@),
{
    let mut k: usize = 0;
    while k < d.len()
        invariant
            k <= d.len(),
            i + d.len() <= s.len(),
            s@.subrange(i as int, i + k) == d@.take(k as int),
        decreases d.len() - k,
    {
        if s[i + k] != d[k] {
            proof {
                let a = s@.subrange(i as int, i + d.len());
                assert(a[k as int] != d@[k as int]);
            }
            return false;
        }
        proof {
            assert(s@.subrange(i as int, i + k + 1) == s@.subrange(i as int, i + k).push(
                s@[i + k],
            ));
            assert(d@.take(k + 1) == d@.take(k as int).push(d@[k as int]));
        }
        k += 1;
    }
    proof {
        assert(d@.take(d.len() as int) == d@);
    }
    true
}

/// Splits `s` on the delimiter `d`.
pub fn split_chars(s: &Vec<char>, d: &Vec<char>) -> (parts: Vec<String>)
    ensures
        parts.deep_view() == split(s@, d@),
{
    let mut parts: Vec<String> = Vec::new();
    let n: usize = s.len();
    let m: usize = d.len();
    let mut start: usize = 0;
    let mut i: usize = 0;
    proof {
        assert(parts.deep_view() == Seq::<Seq<char>>::empty());
        assert(Seq::<Seq<char>>::empty() + split_at(s@, d@, 0, 0) == split_at(s@, d@, 0, 0));
    }
    while m > 0 && m <= n - i
        invariant
            n == s.len(),
            m == d.len(),
            start <= i <= n,
            split(s@, d@) == parts.deep_view() + split_at(s@, d@, start as int, i as int),
        decreases n - i,
    {
        if matches_at(s, i, d) {
            let part = string_of(s, start, i);
            let ghost before = parts.deep_view();
            parts.push(part);
            i += m;
            start = i;
            proof {
                assert(parts.deep_view() == before.push(part@));
                assert(before + (seq![part@] + split_at(s@, d@, i as int, i as int))
                    == before.push(part@) + split_at(s@, d@, i as int, i as int));
            }
        } else {
            i += 1;
        }
    }
    let part = string_of(s, start, n);
    let ghost before = parts.deep_view();
    parts.push(part);
    proof {
        assert(parts.deep_view() == before.push(part@));
        assert(before + seq![part@] == before.push(part@));
    }
    parts
}

/// Joins `parts` with `d` between each two neighbours.
pub fn join_strings(parts: &Vec<String>, d: &str) -> (s: String)
    ensures
        s@ == join(parts.deep_view(), d@),
{
    let mut s = String::new();
    let mut i: usize = 0;
    while i < parts.len()
        invariant
            i <= parts.len(),
            s@ == join(parts.deep_view().take(i as int), d@),
        decreases parts.len() - i,
    {
        let ghost prev = parts.deep_view().take(i as int);
        let ghost next = parts.deep_view().take(i + 1);
        proof {
            assert(next.drop_last() == prev);
            assert(next.last() == parts[i as int]@);
        }
        if i > 0 {
            s.append(d);
        } else {
            proof {
                assert(s@ + parts[i as int]@ == parts[i as int]@);
            }
        }
        s.append(parts[i].as_str());
        i += 1;
    }
    proof {
        assert(parts.deep_view().take(parts.len() as int) == parts.deep_view());
    }
    s
}

/// Splitting always yields at least one part.
pub proof fn lemma_split_at_nonempty(s: Seq<char>, d: Seq<char>, start: int, i: int)
    ensures
        split_at(s, d, start, i).len() > 0,
    decreases s.len() - i,
{
    if d.len() == 0 || i < 0 || i + d.len() > s.len() {
    } else if s.subrange(i, i + d.len()) == d {
    } else {
        lemma_split_at_nonempty(s, d, start, i + 1);
    }
}

/// Joining a first part in front of further parts puts the delimiter between
/// them.
pub proof fn lemma_join_first(first: Seq<char>, rest: Seq<Seq<char>>, d: Seq<char>)
    requires
        rest.len() > 0,
    ensures
        join(seq![first] + rest, d) == first + d + join(rest, d),
    decreases rest.len(),
{
    let all = seq![first] + rest;
    if rest.len() == 1 {
        assert(all.drop_last() == seq![first]);
        assert(all.last() == rest[0]);
        assert(join(seq![first], d) == first);
        assert(join(rest, d) == rest[0]);
    } else {
        assert(all.drop_last() == seq![first] + rest.drop_last());
        assert(all.last() == rest.last());
        lemma_join_first(first, rest.drop_last(), d);
        assert(join(rest, d) == join(rest.drop_last(), d) + d + rest.last());
        assert(join(all, d) == join(all.drop_last(), d) + d + all.last());
        assert((first + d + join(rest.drop_last(), d)) + d + rest.last() == first + d + (join(
            rest.drop_last(),
            d,
        ) + d + rest.last()));
    }
}

proof fn lemma_join_split_at(s: Seq<char>, d: Seq<char>, start: int, i: int)
    requires
        0 <= start <= i <= s.len(),
    ensures
        join(split_at(s, d, start, i), d) == s.subrange(start, s.len() as int),
    decreases s.len() - i,
{
    if d.len() == 0 || i + d.len() > s.len() {
    } else if s.subrange(i, i + d.len()) == d {
        let j = i + d.len();
        let rest = split_at(s, d, j, j);
        lemma_split_at_nonempty(s, d, j, j);
        lemma_join_split_at(s, d, j, j);
        lemma_join_first(s.subrange(start, i), rest, d);
        assert(s.subrange(start, i) + s.subrange(i, j) + s.subrange(j, s.len() as int)
            == s.subrange(start, s.len() as int));
    } else {
        lemma_join_split_at(s, d, start, i + 1);
    }
}

/// Joining the parts of a split with the same delimiter gives the text back.
pub proof fn lemma_join_split(s: Seq<char>, d: Seq<char>)
    ensures
        join(split(s, d), d) == s,
{
    lemma_join_split_at(s, d, 0, 0);
    assert(s.subrange(0, s.len() as int) == s);
}

/// Whether `d` stands somewhere in `s`.
pub open spec fn occurs_in(s: Seq<char>, d: Seq<char>) -> bool {
    exists|k: int| 0 <= k && k + d.len() <= s.len() && #[trigger] s.subrange(k, k + d.len()) == d
}

proof fn lemma_split_at_is_exact(s: Seq<char>, d: Seq<char>, start: int, i: int)
    requires
        d.len() > 0,
        0 <= start <= i <= s.len(),
        forall|q: int|
            start <= q < i && q + d.len() <= s.len() ==> #[trigger] s.subrange(q, q + d.len())
                != d,
    ensures
        forall|j: int|
            0 <= j < split_at(s, d, start, i).len() ==> !occurs_in(
                #[trigger] split_at(s, d, start, i)[j],
                d,
            ),
    decreases s.len() - i,
{
    let parts = split_at(s, d, start, i);
    if i + d.len() > s.len() {
        let part = s.subrange(start, s.len() as int);
        assert(!occurs_in(part, d)) by {
            if occurs_in(part, d) {
                let k = choose|k: int|
                    0 <= k && k + d.len() <= part.len() && #[trigger] part.subrange(k, k + d.len())
                        == d;
                assert(part.subrange(k, k + d.len()) == s.subrange(start + k, start + k + d.len()));
            }
        }
        assert(parts == seq![part]);
        assert(parts[0] == part);
    } else if s.subrange(i, i + d.len()) == d {
        let j = i + d.len();
        let part = s.subrange(start, i);
        assert(!occurs_in(part, d)) by {
            if occurs_in(part, d) {
                let k = choose|k: int|
                    0 <= k && k + d.len() <= part.len() && #[trigger] part.subrange(k, k + d.len())
                        == d;
                assert(part.subrange(k, k + d.len()) == s.subrange(start + k, start + k + d.len()));
            }
        }
        lemma_split_at_is_exact(s, d, j, j);
        let rest = split_at(s, d, j, j);
        assert(parts == seq![part] + rest);
        assert forall|n: int| 0 <= n < parts.len() implies !occurs_in(#[trigger] parts[n], d) by {
            if n > 0 {
                assert(parts[n] == rest[n - 1]);
            } else {
                assert(parts[0] == part);
            }
        }
    } else {
        lemma_split_at_is_exact(s, d, start, i + 1);
        assert(parts == split_at(s, d, start, i + 1));
    }
}

/// Splitting is exact: no part holds the delimiter.
pub proof fn lemma_split_is_exact(s: Seq<char>, d: Seq<char>)
    requires
        d.len() > 0,
    ensures
        forall|j: int| 0 <= j < split(s, d).len() ==> !occurs_in(#[trigger] split(s, d)[j], d),
{
    lemma_split_at_is_exact(s, d, 0, 0);
}

proof fn lemma_split_at_shift(s: Seq<char>, d: Seq<char>, k: int, start: int, i: int)
    requires
        d.len() > 0,
        0 <= k <= start <= i <= s.len(),
    ensures
        split_at(s, d, start, i) == split_at(s.skip(k), d, start - k, i - k),
    decreases s.len() - i,
{
    let t = s.skip(k);
    if i + d.len() > s.len() {
        assert(t.subrange(start - k, t.len() as int) == s.subrange(start, s.len() as int));
    } else {
        assert(t.subrange(i - k, i - k + d.len()) == s.subrange(i, i + d.len()));
        if s.subrange(i, i + d.len()) == d {
            let j = i + d.len();
            assert(t.subrange(start - k, i - k) == s.subrange(start, i));
            lemma_split_at_shift(s, d, k, j, j);
        } else {
            lemma_split_at_shift(s, d, k, start, i + 1);
        }
    }
}

proof fn lemma_split_at_skips(s: Seq<char>, d: Seq<char>, start: int, i: int, m: int)
    requires
        d.len() > 0,
        0 <= start <= i <= m <= s.len(),
        forall|q: int|
            i <= q < m && q + d.len() <= s.len() ==> #[trigger] s.subrange(q, q + d.len()) != d,
    ensures
        split_at(s, d, start, i) == split_at(s, d, start, m),
    decreases m - i,
{
    if i < m && i + d.len() <= s.len() {
        lemma_split_at_skips(s, d, start, i + 1, m);
    }
}

/// Splitting undoes joining, where the delimiter is one character that no
/// part holds.
pub proof fn lemma_split_join(parts: Seq<Seq<char>>, c: char)
    requires
        parts.len() > 0,
        forall|i: int| 0 <= i < parts.len() ==> !(#[trigger] parts[i]).contains(c),
    ensures
        split(join(parts, seq![c]), seq![c]) == parts,
    decreases parts.len(),
{
    let d = seq![c];
    let s = join(parts, d);
    let first = parts[0];
    if parts.len() == 1 {
        assert forall|q: int|
            0 <= q < s.len() && q + d.len() <= s.len() implies #[trigger] s.subrange(q, q + d.len())
            != d by {
            assert(s.subrange(q, q + d.len())[0] == first[q]);
            assert(first.contains(first[q]));
        }
        lemma_split_at_skips(s, d, 0, 0, s.len() as int);
        assert(s.subrange(0, s.len() as int) == s);
        assert(seq![s] == parts);
    } else {
        let rest = parts.skip(1);
        let n = first.len() as int;
        assert(parts == seq![first] + rest);
        lemma_join_first(first, rest, d);
        assert(s == first + d + join(rest, d));
        assert forall|q: int|
            0 <= q < n && q + d.len() <= s.len() implies #[trigger] s.subrange(q, q + d.len())
            != d by {
            assert(s.subrange(q, q + d.len())[0] == first[q]);
            assert(first.contains(first[q]));
        }
        lemma_split_at_skips(s, d, 0, 0, n);
        assert(s.subrange(n, n + d.len()) == d);
        assert(s.subrange(0, n) == first);
        lemma_split_at_shift(s, d, n + 1, n + 1, n + 1);
        assert(s.skip(n + 1) == join(rest, d));
        assert forall|i: int| 0 <= i < rest.len() implies !(#[trigger] rest[i]).contains(c) by {
            assert(rest[i] == parts[i + 1]);
        }
        lemma_split_join(rest, c);
    }
}

} // verus!
