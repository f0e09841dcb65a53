//! Operations on text, stated over sequences of characters.

use vstd::prelude::*;

verus! {

/// The views of a sequence of strings.
pub open spec fn texts(v: Seq<String>) -> Seq<Seq<char>> {
    Seq::new(v.len(), |i: int| v[i]@)
}

/// Pushing a string onto a vector pushes its view onto the views.
pub proof fn lemma_texts_push(v: Seq<String>, s: String)
    ensures
        texts(v.push(s)) == texts(v).push(s@),
{
    assert(texts(v.push(s)) =~= texts(v).push(s@));
}

/// The characters of a string, in a vector.
pub fn to_chars(s: &str) -> (v: Vec<char>)
    ensures
        v@ == s@,
{
    let mut v: Vec<char> = Vec::new();
    for c in it: s.chars()
        invariant
            it.seq() == s@,
            v@ == s@.take(it.index() as int),
    {
        v.push(c);
    }
    v
}

/// The part of a string from character `from` up to character `to`.
pub(crate) fn slice(s: &str, from: usize, to: usize) -> (r: String)
    requires
        from <= to <= s@.len(),
    ensures
        r@ == s@.subrange(from as int, to as int),
{
    String::from_str(s.substring_char(from, to))
}

/// Whether a character has the Unicode property White_Space.
pub open spec fn is_white_space(c: char) -> bool {
    let n = c as int;
    ||| 0x09 <= n <= 0x0D
    ||| n == 0x20
    ||| n == 0x85
    ||| n == 0xA0
    ||| n == 0x1680
    ||| 0x2000 <= n <= 0x200A
    ||| n == 0x2028
    ||| n == 0x2029
    ||| n == 0x202F
    ||| n == 0x205F
    ||| n == 0x3000
}

/// Whether a character has the Unicode property White_Space.
pub fn white_space(c: char) -> (r: bool)
    ensures
        r == is_white_space(c),
{
    let n: u32 = c as u32;
    (0x09 <= n && n <= 0x0D) || n == 0x20 || n == 0x85 || n == 0xA0 || n == 0x1680 || (0x2000 <= n
        && n <= 0x200A) || n == 0x2028 || n == 0x2029 || n == 0x202F || n == 0x205F || n == 0x3000
}

/// A text without its leading white space.
pub open spec fn trim_start(s: Seq<char>) -> Seq<char>
    decreases s.len(),
{
    if s.len() > 0 && is_white_space(s[0]) {
        trim_start(s.skip(1))
    } else {
        s
    }
}

/// A text without its trailing white space.
pub open spec fn trim_end(s: Seq<char>) -> Seq<char>
    decreases s.len(),
{
    if s.len() > 0 && is_white_space(s.last()) {
        trim_end(s.drop_last())
    } else {
        s
    }
}

/// A text without the white space at its two ends.
pub open spec fn trimmed(s: Seq<char>) -> Seq<char> {
    trim_end(trim_start(s))
}

/// A copy of `s` without the white space at its two ends.
pub fn trim(s: &str) -> (r: String)
    ensures
        r@ == trimmed(s@),
{
    let cs = to_chars(s);
    let n = cs.len();
    let mut start: usize = 0;
    assert(s@.skip(0) =~= s@);
    while start < n && white_space(cs[start])
        invariant
            cs@ == s@,
            n == cs.len(),
            start <= n,
            trim_start(s@) == trim_start(s@.skip(start as int)),
        decreases n - start,
    {
        assert(s@.skip(start as int).skip(1) =~= s@.skip(start + 1));
        start += 1;
    }
    let mut end: usize = n;
    while end > start && white_space(cs[end - 1])
        invariant
            cs@ == s@,
            n == cs.len(),
            start <= end <= n,
            trimmed(s@) == trim_end(s@.subrange(start as int, end as int)),
        decreases end,
    {
        assert(s@.subrange(start as int, end as int).drop_last() =~= s@.subrange(
            start as int,
            end - 1,
        ));
        end -= 1;
    }
    slice(s, start, end)
}

/// The place of the first `c` in `s`, or the length of `s` where there is none.
pub open spec fn first_index<T>(s: Seq<T>, c: T) -> int
    decreases s.len(),
{
    if s.len() == 0 || s[0] == c {
        0
    } else {
        1 + first_index(s.skip(1), c)
    }
}

/// `first_index` is the least place that holds `c`.
pub proof fn lemma_first_index<T>(s: Seq<T>, c: T)
    ensures
        0 <= first_index(s, c) <= s.len(),
        forall|j: int| 0 <= j < first_index(s, c) ==> s[j] != c,
        first_index(s, c) < s.len() ==> s[first_index(s, c)] == c,
    decreases s.len(),
{
    if s.len() == 0 || s[0] == c {
    } else {
        let t = s.skip(1);
        lemma_first_index(t, c);
        assert forall|j: int| 0 <= j < first_index(s, c) implies s[j] != c by {
            if j > 0 {
                assert(s[j] == t[j - 1]);
            }
        }
    }
}

/// A place that holds `c`, or the end, with no `c` before it, is `first_index`.
pub proof fn lemma_first_index_is<T>(s: Seq<T>, c: T, i: int)
    requires
        0 <= i <= s.len(),
        forall|j: int| 0 <= j < i ==> s[j] != c,
        i < s.len() ==> s[i] == c,
    ensures
        first_index(s, c) == i,
    decreases s.len(),
{
    if s.len() == 0 || s[0] == c {
    } else {
        let t = s.skip(1);
        assert forall|j: int| 0 <= j < i - 1 implies t[j] != c by {
            assert(t[j] == s[j + 1]);
        }
        lemma_first_index_is(t, c, i - 1);
    }
}

/// The place of the first element of `s` of which `p` holds, or the length of
/// `s` where `p` holds of none.
pub open spec fn first_where<T>(s: Seq<T>, p: spec_fn(T) -> bool) -> int
    decreases s.len(),
{
    if s.len() == 0 || p(s[0]) {
        0
    } else {
        1 + first_where(s.skip(1), p)
    }
}

/// `first_where` is the least place of whose element `p` holds.
pub proof fn lemma_first_where<T>(s: Seq<T>, p: spec_fn(T) -> bool)
    ensures
        0 <= first_where(s, p) <= s.len(),
        forall|j: int| 0 <= j < first_where(s, p) ==> !p(#[trigger] s[j]),
        first_where(s, p) < s.len() ==> p(s[first_where(s, p)]),
    decreases s.len(),
{
    if s.len() > 0 && !p(s[0]) {
        let t = s.skip(1);
        lemma_first_where(t, p);
        assert forall|j: int| 0 <= j < first_where(s, p) implies !p(#[trigger] s[j]) by {
            if j > 0 {
                assert(s[j] == t[j - 1]);
            }
        }
    }
}

/// A place of whose element `p` holds, or the end, with `p` holding of none
/// before it, is `first_where`.
pub proof fn lemma_first_where_is<T>(s: Seq<T>, p: spec_fn(T) -> bool, i: int)
    requires
        0 <= i <= s.len(),
        forall|j: int| 0 <= j < i ==> !p(#[trigger] s[j]),
        i < s.len() ==> p(s[i]),
    ensures
        first_where(s, p) == i,
    decreases s.len(),
{
    if s.len() > 0 && !p(s[0]) {
        let t = s.skip(1);
        assert forall|j: int| 0 <= j < i - 1 implies !p(#[trigger] t[j]) by {
            assert(t[j] == s[j + 1]);
        }
        lemma_first_where_is(t, p, i - 1);
    } else if i > 0 {
        assert(!p(s[0]));
    }
}

/// `first_index` is the length exactly where `s` does not hold `c`.
pub proof fn lemma_first_index_absent<T>(s: Seq<T>, c: T)
    ensures
        first_index(s, c) == s.len() <==> !s.contains(c),
        0 <= first_index(s, c) <= s.len(),
{
    lemma_first_index(s, c);
    if first_index(s, c) < s.len() {
        assert(s.contains(s[first_index(s, c)]));
    }
}

/// The place of the first `c` at or after `from`, or the length where there is none.
pub(crate) fn find_char(cs: &Vec<char>, from: usize, c: char) -> (k: usize)
    requires
        from <= cs.len(),
    ensures
        from <= k <= cs.len(),
        k == from + first_index(cs@.skip(from as int), c),
{
    let mut k: usize = from;
    while k < cs.len() && cs[k] != c
        invariant
            from <= k <= cs.len(),
            forall|j: int| from <= j < k ==> cs@[j] != c,
        decreases cs.len() - k,
    {
        k += 1;
    }
    proof {
        lemma_first_index_is(cs@.skip(from as int), c, k - from);
    }
    k
}

/// The pieces of `s` between the occurrences of `sep`: one more than there are
/// occurrences, empty ones included.
pub open spec fn split_on(s: Seq<char>, sep: char) -> Seq<Seq<char>>
    decreases s.len(),
{
    let k = first_index(s, sep);
    if k < 0 || k >= s.len() {
        seq![s]
    } else {
        seq![s.take(k)] + split_on(s.skip(k + 1), sep)
    }
}

/// The pieces of `s` between the occurrences of `sep`.
pub fn split(s: &str, sep: char) -> (parts: Vec<String>)
    ensures
        texts(parts@) == split_on(s@, sep),
{
    let cs = to_chars(s);
    let n = cs.len();
    let mut parts: Vec<String> = Vec::new();
    let mut start: usize = 0;
    assert(s@.skip(0) =~= s@);
    loop
        invariant
            cs@ == s@,
            n == cs.len(),
            start <= n,
            split_on(s@, sep) == texts(parts@) + split_on(s@.skip(start as int), sep),
        decreases n - start,
    {
        let k = find_char(&cs, start, sep);
        let ghost rest = s@.skip(start as int);
        let piece = slice(s, start, k);
        proof {
            lemma_texts_push(parts@, piece);
            assert(rest.take(k - start) =~= s@.subrange(start as int, k as int));
        }
        if k >= n {
            parts.push(piece);
            return parts;
        }
        proof {
            assert(rest.skip(k - start + 1) =~= s@.skip(k + 1));
        }
        parts.push(piece);
        start = k + 1;
    }
}

/// A text without `sep` is one piece.
pub proof fn lemma_split_one(s: Seq<char>, sep: char)
    requires
        !s.contains(sep),
    ensures
        split_on(s, sep) == seq![s],
{
    lemma_first_index(s, sep);
    if first_index(s, sep) < s.len() {
        assert(s.contains(s[first_index(s, sep)]));
    }
}

/// A separator and a text without separators after `x` add one piece to the
/// pieces of `x`.
pub proof fn lemma_split_append(x: Seq<char>, y: Seq<char>, sep: char)
    requires
        !y.contains(sep),
    ensures
        split_on(x + seq![sep] + y, sep) == split_on(x, sep).push(y),
    decreases x.len(),
{
    let s = x + seq![sep] + y;
    let k = first_index(x, sep);
    lemma_first_index(x, sep);
    assert forall|j: int| 0 <= j < k implies s[j] != sep by {
        assert(s[j] == x[j]);
    }
    if k < x.len() {
        assert(s[k] == x[k]);
        lemma_first_index_is(s, sep, k);
        assert(s.take(k) =~= x.take(k));
        assert(s.skip(k + 1) =~= x.skip(k + 1) + seq![sep] + y);
        lemma_split_append(x.skip(k + 1), y, sep);
        assert(seq![x.take(k)] + split_on(x.skip(k + 1), sep).push(y) =~= (seq![x.take(k)]
            + split_on(x.skip(k + 1), sep)).push(y));
    } else {
        assert(s[k] == sep);
        lemma_first_index_is(s, sep, k);
        assert(s.take(k) =~= x);
        assert(s.skip(k + 1) =~= y);
        lemma_split_one(y, sep);
        assert(seq![x] + seq![y] =~= seq![x].push(y));
    }
}

/// Texts without `sep`, joined with `sep` and split at `sep`, are the same
/// texts again.
pub proof fn lemma_split_join(parts: Seq<Seq<char>>, sep: char)
    requires
        parts.len() > 0,
        forall|i: int| 0 <= i < parts.len() ==> !(#[trigger] parts[i]).contains(sep),
    ensures
        split_on(join(parts, seq![sep]), sep) == parts,
    decreases parts.len(),
{
    if parts.len() == 1 {
        lemma_split_one(parts[0], sep);
        assert(seq![parts[0]] =~= parts);
    } else {
        let before = parts.drop_last();
        assert forall|i: int| 0 <= i < before.len() implies !(#[trigger] before[i]).contains(
            sep,
        ) by {
            assert(before[i] == parts[i]);
        }
        lemma_split_join(before, sep);
        lemma_split_append(join(before, seq![sep]), parts.last(), sep);
        assert(before.push(parts.last()) =~= parts);
    }
}

/// The texts of `parts` in a row, with `sep` between neighbours.
pub open spec fn join(parts: Seq<Seq<char>>, sep: Seq<char>) -> Seq<char>
    decreases parts.len(),
{
    if parts.len() == 0 {
        Seq::empty()
    } else if parts.len() == 1 {
        parts[0]
    } else {
        join(parts.drop_last(), sep) + sep + parts.last()
    }
}

/// The strings of `parts` in a row, with `sep` between neighbours.
pub fn join_strings(parts: &Vec<String>, sep: &str) -> (r: String)
    ensures
        r@ == join(texts(parts@), sep@),
{
    let mut out = String::new();
    let mut i: usize = 0;
    while i < parts.len()
        invariant
            i <= parts.len(),
            out@ == join(texts(parts@).take(i as int), sep@),
        decreases parts.len() - i,
    {
        proof {
            let next = texts(parts@).take(i + 1);
            assert(next.drop_last() =~= texts(parts@).take(i as int));
        }
        if i > 0 {
            out.append(sep);
        }
        out.append(parts[i].as_str());
        i += 1;
    }
    assert(texts(parts@).take(parts.len() as int) =~= texts(parts@));
    out
}

/// Copies of the strings of `v`, in their order.
pub fn copy_strings(v: &Vec<String>) -> (r: Vec<String>)
    ensures
        texts(r@) == texts(v@),
{
    let mut r: Vec<String> = Vec::new();
    let mut i: usize = 0;
    while i < v.len()
        invariant
            i <= v.len(),
            texts(r@) == texts(v@).take(i as int),
        decreases v.len() - i,
    {
        let s = v[i].clone();
        proof {
            lemma_texts_push(r@, s);
        }
        r.push(s);
        i += 1;
    }
    r
}

/// The text of an optional string.
pub open spec fn opt_text(o: Option<String>) -> Option<Seq<char>> {
    match o {
        Some(s) => Some(s@),
        None => None,
    }
}

/// A copy of an optional string.
pub fn copy_option(o: &Option<String>) -> (r: Option<String>)
    ensures
        opt_text(r) == opt_text(*o),
{
    match o {
        Some(s) => Some(s.clone()),
        None => None,
    }
}

/// Whether `s` begins with `p`.
pub open spec fn starts_with(s: Seq<char>, p: Seq<char>) -> bool {
    p.len() <= s.len() && s.take(p.len() as int) == p
}

/// `s` with every occurrence of `pat` replaced by `with`, the occurrences taken
/// from the left and none overlapping an earlier one. An empty `pat` occurs
/// nowhere.
pub open spec fn replace_all(s: Seq<char>, pat: Seq<char>, with: Seq<char>) -> Seq<char>
    decreases s.len(),
{
    if s.len() == 0 || pat.len() == 0 {
        s
    } else if starts_with(s, pat) {
        with + replace_all(s.skip(pat.len() as int), pat, with)
    } else {
        seq![s[0]] + replace_all(s.skip(1), pat, with)
    }
}

/// Whether `pat` stands in `cs` at place `at`.
pub(crate) fn matches_at(cs: &Vec<char>, at: usize, pat: &Vec<char>) -> (r: bool)
    requires
        at <= cs.len(),
    ensures
        r == starts_with(cs@.skip(at as int), pat@),
{
    if pat.len() > cs.len() - at {
        return false;
    }
    let ghost rest = cs@.skip(at as int);
    let mut j: usize = 0;
    while j < pat.len()
        invariant
            at <= cs.len(),
            pat.len() <= cs.len() - at,
            rest == cs@.skip(at as int),
            j <= pat.len(),
            forall|k: int| 0 <= k < j ==> rest[k] == pat@[k],
        decreases pat.len() - j,
    {
        if cs[at + j] != pat[j] {
            return false;
        }
        j += 1;
    }
    assert(rest.take(pat.len() as int) =~= pat@);
    true
}

/// A copy of `s` with every occurrence of `pat` replaced by `with`.
pub fn replace(s: &str, pat: &str, with: &str) -> (r: String)
    ensures
        r@ == replace_all(s@, pat@, with@),
{
    let cs = to_chars(s);
    let ps = to_chars(pat);
    let n = cs.len();
    if ps.len() == 0 {
        return String::from_str(s);
    }
    let mut out = String::new();
    let mut copied: usize = 0;
    let mut i: usize = 0;
    assert(s@.skip(0) =~= s@);
    while i < n
        invariant
            cs@ == s@,
            ps@ == pat@,
            ps.len() > 0,
            n == cs.len(),
            copied <= i <= n,
            replace_all(s@, pat@, with@) == out@ + s@.subrange(copied as int, i as int)
                + replace_all(s@.skip(i as int), pat@, with@),
        decreases n - i,
    {
        let ghost rest = s@.skip(i as int);
        if matches_at(&cs, i, &ps) {
            proof {
                assert(rest.skip(ps.len() as int) =~= s@.skip(i + ps.len()));
            }
            out.append(slice(s, copied, i).as_str());
            out.append(with);
            i += ps.len();
            copied = i;
        } else {
            proof {
                assert(rest.skip(1) =~= s@.skip(i + 1));
            }
            i += 1;
        }
    }
    out.append(slice(s, copied, n).as_str());
    out
}

/// Whether `pat` stands somewhere in `s`.
pub open spec fn occurs(s: Seq<char>, pat: Seq<char>) -> bool {
    exists|i: int| 0 <= i <= s.len() && #[trigger] starts_with(s.skip(i), pat)
}

/// What stands in a part of a text stands in the text.
pub proof fn lemma_occurs_within(a: Seq<char>, p: Seq<char>, b: Seq<char>, pat: Seq<char>)
    requires
        occurs(p, pat),
    ensures
        occurs(a + p + b, pat),
{
    let i = choose|i: int| 0 <= i <= p.len() && #[trigger] starts_with(p.skip(i), pat);
    let s = a + p + b;
    assert(s.skip(a.len() + i) =~= p.skip(i) + b);
    assert((p.skip(i) + b).take(pat.len() as int) =~= p.skip(i).take(pat.len() as int));
    assert(starts_with(s.skip(a.len() + i), pat));
}

/// A replacement leaves a text as it is where what is to be replaced does
/// not stand in it.
pub proof fn lemma_replace_absent(s: Seq<char>, pat: Seq<char>, with: Seq<char>)
    requires
        !occurs(s, pat),
    ensures
        replace_all(s, pat, with) == s,
    decreases s.len(),
{
    if s.len() > 0 && pat.len() > 0 {
        assert(s.skip(0) =~= s);
        assert(!starts_with(s.skip(0), pat));
        if occurs(s.skip(1), pat) {
            lemma_occurs_within(s.take(1), s.skip(1), Seq::empty(), pat);
            assert(s.take(1) + s.skip(1) + Seq::<char>::empty() =~= s);
        }
        lemma_replace_absent(s.skip(1), pat, with);
        assert(seq![s[0]] + s.skip(1) =~= s);
    }
}

/// Whether no proper end of `p` is also a beginning of it, so that two
/// occurrences of `p` in a text never overlap.
pub open spec fn unbordered(p: Seq<char>) -> bool {
    p.len() > 0 && forall|k: int| 0 < k < p.len() ==> #[trigger] p.skip(k) != p.take(p.len() - k)
}

/// A replacement is textual: wherever an unbordered `pat` stands in a text,
/// between any `a` and any `b`, it is replaced, and what stands before and
/// after it is treated as if it stood alone.
pub proof fn lemma_replace_anywhere(a: Seq<char>, b: Seq<char>, pat: Seq<char>, with: Seq<char>)
    requires
        unbordered(pat),
    ensures
        replace_all(a + pat + b, pat, with) == replace_all(a, pat, with) + with + replace_all(
            b,
            pat,
            with,
        ),
    decreases a.len(),
{
    let s = a + pat + b;
    let n = pat.len() as int;
    if a.len() == 0 {
        assert(s.take(n) =~= pat);
        assert(s.skip(n) =~= b);
        assert(with + replace_all(b, pat, with) =~= a + with + replace_all(b, pat, with));
    } else if starts_with(s, pat) {
        if n <= a.len() {
            assert(a.take(n) =~= s.take(n));
            assert(s.skip(n) =~= a.skip(n) + pat + b);
            lemma_replace_anywhere(a.skip(n), b, pat, with);
            assert(with + (replace_all(a.skip(n), pat, with) + with + replace_all(b, pat, with))
                =~= (with + replace_all(a.skip(n), pat, with)) + with + replace_all(b, pat, with));
        } else {
            let k = a.len() as int;
            assert forall|j: int| 0 <= j < n - k implies pat.skip(k)[j] == pat.take(n - k)[j] by {
                assert(s.take(n)[k + j] == s[k + j]);
                assert(s[k + j] == pat[j]);
            }
            assert(pat.skip(k) =~= pat.take(n - k));
        }
    } else {
        if n <= a.len() {
            assert(a.take(n) =~= s.take(n));
        }
        assert(s.skip(1) =~= a.skip(1) + pat + b);
        lemma_replace_anywhere(a.skip(1), b, pat, with);
        assert(seq![s[0]] + (replace_all(a.skip(1), pat, with) + with + replace_all(b, pat, with))
            =~= (seq![a[0]] + replace_all(a.skip(1), pat, with)) + with + replace_all(
            b,
            pat,
            with,
        ));
    }
}

/// Whether `s` ends with `p`.
pub open spec fn ends_with(s: Seq<char>, p: Seq<char>) -> bool {
    p.len() <= s.len() && s.skip(s.len() - p.len()) == p
}

/// Whether `s` ends with `suffix`.
pub fn has_suffix(s: &str, suffix: &str) -> (r: bool)
    ensures
        r == ends_with(s@, suffix@),
{
    let cs = to_chars(s);
    let ps = to_chars(suffix);
    if ps.len() > cs.len() {
        return false;
    }
    let at = cs.len() - ps.len();
    let r = matches_at(&cs, at, &ps);
    assert(cs@.skip(at as int).take(ps.len() as int) =~= cs@.skip(at as int));
    r
}

/// Whether the two strings hold the same text.
pub fn same_text(a: &str, b: &str) -> (r: bool)
    ensures
        r == (a@ == b@),
{
    String::from_str(a) == String::from_str(b)
}

/// Whether `s` holds the character `c`.
pub fn has_char(s: &str, c: char) -> (r: bool)
    ensures
        r == s@.contains(c),
{
    let cs = to_chars(s);
    let k = find_char(&cs, 0, c);
    proof {
        assert(cs@.skip(0) =~= cs@);
        lemma_first_index(cs@, c);
    }
    k < cs.len()
}

/// The ten digits.
pub open spec fn digits() -> Seq<char> {
    seq!['0', '1', '2', '3', '4', '5', '6', '7', '8', '9']
}

/// A number in decimal, without leading zeros.
pub open spec fn decimal(n: nat) -> Seq<char>
    decreases n,
{
    if n < 10 {
        seq![digits()[n as int]]
    } else {
        decimal(n / 10).push(digits()[(n % 10) as int])
    }
}

/// A number in decimal, without leading zeros.
pub fn to_decimal(n: usize) -> (r: String)
    ensures
        r@ == decimal(n as nat),
{
    proof {
        reveal_strlit("0123456789");
    }
    let mut low = String::new();
    let mut m: usize = n;
    while m >= 10
        invariant
            "0123456789"@ == digits(),
            decimal(n as nat) == decimal(m as nat) + low@,
        decreases m,
    {
        let d = m % 10;
        let mut next = slice("0123456789", d, d + 1);
        next.append(low.as_str());
        low = next;
        m = m / 10;
    }
    let mut r = slice("0123456789", m, m + 1);
    r.append(low.as_str());
    r
}

/// Whether every character of `s` is a decimal digit.
pub open spec fn all_digits(s: Seq<char>) -> bool {
    forall|i: int| 0 <= i < s.len() ==> '0' <= #[trigger] s[i] <= '9'
}

/// The number that a row of decimal digits writes.
pub open spec fn digits_value(s: Seq<char>) -> nat
    decreases s.len(),
{
    if s.len() == 0 {
        0
    } else {
        digits_value(s.drop_last()) * 10 + ((s.last() as int) - ('0' as int)) as nat
    }
}

/// The integer that `s` writes: an optional sign, then one decimal digit or
/// more and nothing else; none where the number does not fit an `isize`.
pub open spec fn integer_of(s: Seq<char>) -> Option<int> {
    let negative = s.len() > 0 && s[0] == '-';
    let signed = s.len() > 0 && (s[0] == '-' || s[0] == '+');
    let body = if signed {
        s.skip(1)
    } else {
        s
    };
    let value = if negative {
        -(digits_value(body) as int)
    } else {
        digits_value(body) as int
    };
    if body.len() == 0 || !all_digits(body) || value < isize::MIN || value > isize::MAX {
        None
    } else {
        Some(value)
    }
}

/// The integer that `s` writes, where it writes one that fits an `isize`.
pub fn parse_integer(s: &str) -> (r: Option<isize>)
    ensures
        match integer_of(s@) {
            Some(v) => r == Some(v as isize) && v == r.unwrap(),
            None => r is None,
        },
{
    let cs = to_chars(s);
    let n = cs.len();
    let negative = n > 0 && cs[0] == '-';
    let start: usize = if n > 0 && (cs[0] == '-' || cs[0] == '+') {
        1
    } else {
        0
    };
    if start == n {
        return None;
    }
    let ghost body = s@.skip(start as int);
    let limit: u128 = 0x1_0000_0000_0000_0000;
    let mut acc: u128 = 0;
    let mut over = false;
    let mut i: usize = start;
    while i < n
        invariant
            cs@ == s@,
            n == cs.len(),
            start <= i <= n,
            body == s@.skip(start as int),
            body == if s@.len() > 0 && (s@[0] == '-' || s@[0] == '+') {
                s@.skip(1)
            } else {
                s@
            },
            limit == 0x1_0000_0000_0000_0000,
            forall|k: int| 0 <= k < i - start ==> '0' <= #[trigger] body[k] <= '9',
            !over ==> acc == digits_value(body.take(i - start)) && acc <= limit,
            over ==> digits_value(body.take(i - start)) > limit,
        decreases n - i,
    {
        let c = cs[i];
        if !(c >= '0' && c <= '9') {
            assert(body[i - start] == c);
            return None;
        }
        let d: u128 = ((c as u32) - ('0' as u32)) as u128;
        proof {
            assert(body.take(i - start + 1).drop_last() =~= body.take(i - start));
        }
        if !over {
            acc = acc * 10 + d;
            if acc > limit {
                over = true;
            }
        }
        i += 1;
    }
    proof {
        assert(body.take(n - start) =~= body);
    }
    if over {
        return None;
    }
    if negative {
        if acc > (isize::MAX as u128) + 1 {
            None
        } else if acc == (isize::MAX as u128) + 1 {
            Some(isize::MIN)
        } else {
            Some(-(acc as isize))
        }
    } else {
        if acc > isize::MAX as u128 {
            None
        } else {
            Some(acc as isize)
        }
    }
}

} // verus!
