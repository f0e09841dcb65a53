//! Splitting a command line into its tokens.
//!
//! Blanks separate tokens. A part between two double quotes is one token, taken
//! as it stands, blanks included and the quotes left out; nothing inside it is
//! an escape.

use crate::text::{
    find_char, first_index, first_where, lemma_first_index, lemma_first_index_is,
    lemma_first_where, lemma_occurs_within, lemma_texts_push, occurs, slice, texts, to_chars,
};
use crate::utilities::{build_invalid_data_error_str, Error, ErrorKind};
use vstd::prelude::*;

verus! {

/// The white space of ASCII: space, tab, line feed, form feed, carriage return.
pub open spec fn is_blank(c: char) -> bool {
    c == ' ' || c == '\t' || c == '\n' || c == '\x0C' || c == '\r'
}

/// Whether `c` ends a word: a blank or a double quote.
pub open spec fn ends_word(c: char) -> bool {
    is_blank(c) || c == '"'
}

/// The length of the longest beginning of `s` that holds neither a blank nor a
/// double quote.
pub open spec fn word_len(s: Seq<char>) -> int
    decreases s.len(),
{
    if s.len() == 0 || ends_word(s[0]) {
        0
    } else {
        1 + word_len(s.skip(1))
    }
}

/// `first` before the tokens of the rest, where the rest has tokens.
pub open spec fn token_then(first: Seq<char>, rest: Option<Seq<Seq<char>>>) -> Option<
    Seq<Seq<char>>,
> {
    match rest {
        Some(r) => Some(seq![first] + r),
        None => None,
    }
}

/// The tokens of a command line; none where a double quote is never closed.
pub open spec fn tokens(s: Seq<char>) -> Option<Seq<Seq<char>>>
    decreases s.len(),
{
    if s.len() == 0 {
        Some(Seq::empty())
    } else if is_blank(s[0]) {
        tokens(s.skip(1))
    } else if s[0] == '"' {
        let k = first_index(s.skip(1), '"');
        if 0 <= k < s.len() - 1 {
            token_then(s.subrange(1, 1 + k), tokens(s.skip(k + 2)))
        } else {
            None
        }
    } else {
        let k = word_len(s);
        if 0 < k <= s.len() {
            token_then(s.take(k), tokens(s.skip(k)))
        } else {
            None
        }
    }
}

/// The tokens of two texts, one after the other, where each has tokens.
pub open spec fn tokens_then(a: Option<Seq<Seq<char>>>, b: Option<Seq<Seq<char>>>) -> Option<
    Seq<Seq<char>>,
> {
    match (a, b) {
        (Some(x), Some(y)) => Some(x + y),
        _ => None,
    }
}

/// `word_len` is the first place whose character ends a word.
pub proof fn lemma_word_len(s: Seq<char>)
    ensures
        0 <= word_len(s) <= s.len(),
        forall|j: int| 0 <= j < word_len(s) ==> !ends_word(s[j]),
        word_len(s) < s.len() ==> ends_word(s[word_len(s)]),
    decreases s.len(),
{
    if s.len() == 0 || ends_word(s[0]) {
    } else {
        let t = s.skip(1);
        lemma_word_len(t);
        assert forall|j: int| 0 <= j < word_len(s) implies !ends_word(s[j]) by {
            if j > 0 {
                assert(s[j] == t[j - 1]);
            }
        }
    }
}

/// The first place whose character ends a word, or the end, is `word_len`.
pub proof fn lemma_word_len_is(s: Seq<char>, i: int)
    requires
        0 <= i <= s.len(),
        forall|j: int| 0 <= j < i ==> !ends_word(s[j]),
        i < s.len() ==> ends_word(s[i]),
    ensures
        word_len(s) == i,
    decreases s.len(),
{
    if s.len() == 0 || ends_word(s[0]) {
    } else {
        let t = s.skip(1);
        assert forall|j: int| 0 <= j < i - 1 implies !ends_word(t[j]) by {
            assert(t[j] == s[j + 1]);
        }
        lemma_word_len_is(t, i - 1);
    }
}

/// The tokens of `a` followed by `b` are those of `a`, then those of `b`,
/// where the quotes of `a` are closed and `b` does not go on with a word of `a`.
pub proof fn lemma_tokens_append(a: Seq<char>, b: Seq<char>)
    requires
        tokens(a) is Some,
        b.len() == 0 || ends_word(b[0]),
    ensures
        tokens(a + b) == tokens_then(tokens(a), tokens(b)),
    decreases a.len(),
{
    let s = a + b;
    if a.len() == 0 {
        assert(s =~= b);
        match tokens(b) {
            Some(t) => {
                assert(Seq::<Seq<char>>::empty() + t =~= t);
            },
            None => {},
        }
    } else if is_blank(a[0]) {
        assert(s.skip(1) =~= a.skip(1) + b);
        lemma_tokens_append(a.skip(1), b);
    } else if a[0] == '"' {
        let k = first_index(a.skip(1), '"');
        lemma_first_index(a.skip(1), '"');
        assert forall|j: int| 0 <= j < k implies s.skip(1)[j] != '"' by {
            assert(s.skip(1)[j] == a.skip(1)[j]);
        }
        assert(s.skip(1)[k] == a.skip(1)[k]);
        lemma_first_index_is(s.skip(1), '"', k);
        assert(s.subrange(1, 1 + k) =~= a.subrange(1, 1 + k));
        assert(s.skip(k + 2) =~= a.skip(k + 2) + b);
        lemma_tokens_append(a.skip(k + 2), b);
        match (tokens(a.skip(k + 2)), tokens(b)) {
            (Some(x), Some(y)) => {
                assert(seq![a.subrange(1, 1 + k)] + (x + y) =~= (seq![a.subrange(1, 1 + k)] + x)
                    + y);
            },
            _ => {},
        }
    } else {
        let k = word_len(a);
        lemma_word_len(a);
        assert forall|j: int| 0 <= j < k implies !ends_word(s[j]) by {
            assert(s[j] == a[j]);
        }
        if k < a.len() {
            assert(s[k] == a[k]);
        } else if b.len() > 0 {
            assert(s[k] == b[0]);
        }
        lemma_word_len_is(s, k);
        assert(s.take(k) =~= a.take(k));
        assert(s.skip(k) =~= a.skip(k) + b);
        lemma_tokens_append(a.skip(k), b);
        match (tokens(a.skip(k)), tokens(b)) {
            (Some(x), Some(y)) => {
                assert(seq![a.take(k)] + (x + y) =~= (seq![a.take(k)] + x) + y);
            },
            _ => {},
        }
    }
}

/// A part between double quotes is one token, as it stands: whatever `q`
/// holds but a double quote, blanks too, and wherever it stands in the line.
pub proof fn lemma_quoted_is_one_token(a: Seq<char>, q: Seq<char>, b: Seq<char>)
    requires
        tokens(a) is Some,
        !q.contains('"'),
    ensures
        tokens(a + seq!['"'] + q + seq!['"'] + b) == tokens_then(
            tokens(a),
            token_then(q, tokens(b)),
        ),
{
    let t = seq!['"'] + q + seq!['"'] + b;
    let n = q.len() as int;
    assert forall|j: int| 0 <= j < q.len() implies t.skip(1)[j] != '"' by {
        assert(t.skip(1)[j] == q[j]);
        assert(q.contains(q[j]));
    }
    assert(t.skip(1)[n] == '"');
    lemma_first_index_is(t.skip(1), '"', n);
    assert(t.subrange(1, 1 + n) =~= q);
    assert(t.skip(n + 2) =~= b);
    assert(tokens(t) == token_then(q, tokens(b)));
    lemma_tokens_append(a, t);
    assert(a + t =~= a + seq!['"'] + q + seq!['"'] + b);
}

/// Outside double quotes a blank separates: what stands before it and what
/// stands after it give their tokens apart.
pub proof fn lemma_blank_separates(a: Seq<char>, c: char, b: Seq<char>)
    requires
        tokens(a) is Some,
        is_blank(c),
    ensures
        tokens(a + seq![c] + b) == tokens_then(tokens(a), tokens(b)),
{
    let t = seq![c] + b;
    assert(t.skip(1) =~= b);
    lemma_tokens_append(a, t);
    assert(a + t =~= a + seq![c] + b);
}

/// A text with no blank and no double quote in it is one token.
pub proof fn lemma_word_is_token(w: Seq<char>)
    requires
        w.len() > 0,
        forall|j: int| 0 <= j < w.len() ==> !ends_word(w[j]),
    ensures
        tokens(w) == Some(seq![w]),
{
    lemma_word_len_is(w, w.len() as int);
    assert(!ends_word(w[0]));
    assert(w.take(w.len() as int) =~= w);
    assert(w.skip(w.len() as int) =~= Seq::<char>::empty());
    assert(tokens(Seq::<char>::empty()) == Some(Seq::<Seq<char>>::empty()));
    assert(seq![w] + Seq::<Seq<char>>::empty() =~= seq![w]);
}

/// The blanks, as a predicate.
pub open spec fn blanks() -> spec_fn(char) -> bool {
    |c: char| is_blank(c)
}

/// The texts that are not empty, as a predicate.
pub open spec fn filled() -> spec_fn(Seq<char>) -> bool {
    |p: Seq<char>| p.len() > 0
}

/// The pieces of `s` between its blanks: one more than there are blanks,
/// empty ones included.
pub open spec fn pieces(s: Seq<char>) -> Seq<Seq<char>>
    decreases s.len(),
{
    let k = first_where(s, blanks());
    if k < 0 || k >= s.len() {
        seq![s]
    } else {
        seq![s.take(k)] + pieces(s.skip(k + 1))
    }
}

/// The words of `s`: its pieces between blanks, the empty ones left out.
/// These are the longest runs of characters that are no blanks, in their
/// order.
pub open spec fn words(s: Seq<char>) -> Seq<Seq<char>> {
    pieces(s).filter(filled())
}

/// The one piece `p`, the empty ones left out: `p`, or nothing where `p` is
/// empty.
pub proof fn lemma_filled_one(p: Seq<char>)
    ensures
        seq![p].filter(filled()) == if p.len() > 0 {
            seq![p]
        } else {
            Seq::<Seq<char>>::empty()
        },
{
    reveal_with_fuel(Seq::filter, 2);
    let one = seq![p];
    assert(one.drop_last() =~= Seq::<Seq<char>>::empty());
    assert(one.drop_last().filter(filled()) =~= Seq::<Seq<char>>::empty());
    assert(one.last() == p);
    assert(Seq::<Seq<char>>::empty().push(p) =~= one);
}

/// What does not stand in a text stands in none of its words, and no word
/// is empty.
pub proof fn lemma_words_within(s: Seq<char>, pat: Seq<char>)
    requires
        !occurs(s, pat),
    ensures
        forall|j: int| 0 <= j < words(s).len() ==> !occurs(#[trigger] words(s)[j], pat),
        forall|j: int| 0 <= j < words(s).len() ==> (#[trigger] words(s)[j]).len() > 0,
{
    lemma_pieces_within(s, pat);
    assert forall|j: int| 0 <= j < words(s).len() implies !occurs(
        #[trigger] words(s)[j],
        pat,
    ) && words(s)[j].len() > 0 by {
        let w = words(s)[j];
        pieces(s).lemma_filter_pred(filled(), j);
        assert(words(s).contains(w));
        pieces(s).lemma_filter_contains_rev(filled(), w);
        let i = choose|i: int| 0 <= i < pieces(s).len() && pieces(s)[i] == w;
        assert(!occurs(pieces(s)[i], pat));
    }
}

/// What does not stand in a text stands in none of its pieces.
pub proof fn lemma_pieces_within(s: Seq<char>, pat: Seq<char>)
    requires
        !occurs(s, pat),
    ensures
        forall|j: int| 0 <= j < pieces(s).len() ==> !occurs(#[trigger] pieces(s)[j], pat),
    decreases s.len(),
{
    let k = first_where(s, blanks());
    lemma_first_where(s, blanks());
    if k < s.len() {
        let word = s.take(k);
        let rest = s.skip(k + 1);
        if occurs(word, pat) {
            lemma_occurs_within(Seq::empty(), word, s.skip(k), pat);
            assert(Seq::<char>::empty() + word + s.skip(k) =~= s);
        }
        if occurs(rest, pat) {
            lemma_occurs_within(s.take(k + 1), rest, Seq::empty(), pat);
            assert(s.take(k + 1) + rest + Seq::<char>::empty() =~= s);
        }
        lemma_pieces_within(rest, pat);
        assert forall|j: int| 0 <= j < pieces(s).len() implies !occurs(
            #[trigger] pieces(s)[j],
            pat,
        ) by {
            if j > 0 {
                assert(pieces(s)[j] == pieces(rest)[j - 1]);
            }
        }
    }
}

/// A command line without double quotes splits at its blanks and nowhere
/// else: its tokens are its words. So no token is empty, none holds a blank,
/// and the tokens are the longest runs of other characters, in their order.
pub proof fn lemma_unquoted_splits_at_blanks(s: Seq<char>)
    requires
        !s.contains('"'),
    ensures
        tokens(s) == Some(words(s)),
    decreases s.len(),
{
    let k = first_where(s, blanks());
    lemma_first_where(s, blanks());
    assert forall|j: int| 0 <= j < s.len() implies s[j] != '"' by {
        assert(s.contains(s[j]));
    }
    if k >= s.len() {
        lemma_filled_one(s);
        if s.len() > 0 {
            assert forall|j: int| 0 <= j < s.len() implies !ends_word(s[j]) by {
                assert(!blanks()(s[j]));
            }
            lemma_word_is_token(s);
        }
    } else {
        let word = s.take(k);
        let rest = s.skip(k + 1);
        assert forall|j: int| 0 <= j < rest.len() implies rest[j] != '"' by {
            assert(rest[j] == s[k + 1 + j]);
        }
        assert(!rest.contains('"'));
        lemma_unquoted_splits_at_blanks(rest);
        lemma_filled_one(word);
        Seq::filter_distributes_over_add(seq![word], pieces(rest), filled());
        assert(blanks()(s[k]));
        if k == 0 {
            assert(s.skip(1) =~= rest);
            assert(Seq::<Seq<char>>::empty() + words(rest) =~= words(rest));
        } else {
            assert forall|j: int| 0 <= j < word.len() implies !ends_word(word[j]) by {
                assert(!blanks()(s[j]));
            }
            lemma_word_is_token(word);
            lemma_blank_separates(word, s[k], rest);
            assert(word + seq![s[k]] + rest =~= s);
        }
    }
}

/// Whether a character is one of the white space of ASCII.
pub fn blank(c: char) -> (r: bool)
    ensures
        r == is_blank(c),
{
    c == ' ' || c == '\t' || c == '\n' || c == '\x0C' || c == '\r'
}

/// The tokens of a command line.
///
/// Fails, with a configuration error, exactly where a double quote is never
/// closed.
pub fn tokenize(s: &str) -> (r: Result<Vec<String>, Error>)
    ensures
        match tokens(s@) {
            Some(t) => r is Ok && texts(r->Ok_0@) == t,
            None => r is Err && r->Err_0.describes(
                ErrorKind::ConfigError,
                "unterminated quote in command"@,
            ),
        },
{
    let cs = to_chars(s);
    let n = cs.len();
    let mut out: Vec<String> = Vec::new();
    let mut i: usize = 0;
    proof {
        assert(s@.skip(0) =~= s@);
        match tokens(s@) {
            Some(t) => {
            },
            None => {},
        }
    }
    while i < n
        invariant
            cs@ == s@,
            n == cs.len(),
            i <= n,
            tokens(s@) == tokens_then(Some(texts(out@)), tokens(s@.skip(i as int))),
        decreases n - i,
    {
        let ghost rest = s@.skip(i as int);
        let c = cs[i];
        if blank(c) {
            assert(rest.skip(1) =~= s@.skip(i + 1));
            i += 1;
        } else if c == '"' {
            let k = find_char(&cs, i + 1, '"');
            proof {
                assert(rest.skip(1) =~= s@.skip(i + 1));
            }
            if k >= n {
                return Err(build_invalid_data_error_str("unterminated quote in command"));
            }
            let piece = slice(s, i + 1, k);
            proof {
                lemma_texts_push(out@, piece);
                assert(rest.subrange(1, 1 + (k - i - 1)) =~= piece@);
                assert(rest.skip(k - i - 1 + 2) =~= s@.skip(k + 1));
                match tokens(s@.skip(k + 1)) {
                    Some(t) => {
                    },
                    None => {},
                }
            }
            out.push(piece);
            i = k + 1;
        } else {
            let mut k: usize = i + 1;
            while k < n && !blank(cs[k]) && cs[k] != '"'
                invariant
                    cs@ == s@,
                    n == cs.len(),
                    i < k <= n,
                    forall|j: int| i <= j < k ==> !ends_word(s@[j]),
                decreases n - k,
            {
                k += 1;
            }
            let piece = slice(s, i, k);
            proof {
                lemma_word_len_is(rest, k - i);
                lemma_texts_push(out@, piece);
                assert(rest.take(k - i) =~= piece@);
                assert(rest.skip(k - i) =~= s@.skip(k as int));
                match tokens(s@.skip(k as int)) {
                    Some(t) => {
                    },
                    None => {},
                }
            }
            out.push(piece);
            i = k;
        }
    }
    Ok(out)
}

} // verus!
