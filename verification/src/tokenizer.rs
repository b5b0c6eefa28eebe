//! Splitting source text into tokens.
//!
//! A token is either a single parenthesis or a maximal run of characters that
//! holds neither whitespace nor a parenthesis.
use vstd::prelude::*;

verus! {

/// The characters that carry the Unicode property `White_Space`.
pub open spec fn is_white_space(c: char) -> bool {
    ||| '\u{9}' <= c <= '\u{D}'
    ||| c == ' '
    ||| c == '\u{85}'
    ||| c == '\u{A0}'
    ||| c == '\u{1680}'
    ||| '\u{2000}' <= c <= '\u{200A}'
    ||| c == '\u{2028}'
    ||| c == '\u{2029}'
    ||| c == '\u{202F}'
    ||| c == '\u{205F}'
    ||| c == '\u{3000}'
}

/// An opening or a closing parenthesis.
pub open spec fn is_paren(c: char) -> bool {
    c == '(' || c == ')'
}

/// Whether `text` holds no whitespace.
pub open spec fn no_white_space(text: Seq<char>) -> bool {
    forall|i: int| 0 <= i < text.len() ==> !is_white_space(#[trigger] text[i])
}

/// Whether `text` holds no parenthesis.
pub open spec fn no_paren(text: Seq<char>) -> bool {
    forall|i: int| 0 <= i < text.len() ==> !is_paren(#[trigger] text[i])
}

/// What one character of the source becomes before splitting: a parenthesis
/// gets a space on either side, any other character stays as it is.
pub open spec fn pad_char(c: char) -> Seq<char> {
    if is_paren(c) {
        seq![' ', c, ' ']
    } else {
        seq![c]
    }
}

/// `text` with a space on either side of every parenthesis.
pub open spec fn pad_parens(text: Seq<char>) -> Seq<char>
    decreases text.len(),
{
    if text.len() == 0 {
        Seq::empty()
    } else {
        pad_char(text[0]) + pad_parens(text.drop_first())
    }
}

/// The length of the longest prefix of `text` that holds no whitespace.
pub open spec fn word_len(text: Seq<char>) -> nat
    decreases text.len(),
{
    if text.len() == 0 || is_white_space(text[0]) {
        0
    } else {
        1 + word_len(text.drop_first())
    }
}

/// The maximal runs of `text` that hold no whitespace, in the order in which
/// they occur. Whitespace separates the runs and belongs to none of them.
pub open spec fn split_whitespace(text: Seq<char>) -> Seq<Seq<char>>
    decreases text.len(),
{
    if text.len() == 0 {
        Seq::empty()
    } else if is_white_space(text[0]) {
        split_whitespace(text.drop_first())
    } else {
        proof {
            lemma_word_len(text);
        }
        seq![text.take(word_len(text) as int)] + split_whitespace(text.skip(word_len(text) as int))
    }
}

/// The tokens of `text`: every parenthesis is set apart by spaces, then the
/// result is split at whitespace.
pub open spec fn tokens_of(text: Seq<char>) -> Seq<Seq<char>> {
    split_whitespace(pad_parens(text))
}

/// The texts of a sequence of tokens.
pub open spec fn texts(tokens: Seq<String>) -> Seq<Seq<char>> {
    Seq::new(tokens.len(), |i: int| tokens[i]@)
}

/// What every token is like: it is not empty, it holds no whitespace, and it
/// is a single parenthesis or holds none.
pub open spec fn is_token(token: Seq<char>) -> bool {
    &&& token.len() > 0
    &&& no_white_space(token)
    &&& token.len() == 1 || no_paren(token)
}

/// The tokens written one after the other.
pub open spec fn concat(tokens: Seq<Seq<char>>) -> Seq<char>
    decreases tokens.len(),
{
    if tokens.len() == 0 {
        Seq::empty()
    } else {
        tokens[0] + concat(tokens.drop_first())
    }
}

/// `text` without its whitespace.
pub open spec fn without_white_space(text: Seq<char>) -> Seq<char>
    decreases text.len(),
{
    if text.len() == 0 {
        Seq::empty()
    } else if is_white_space(text[0]) {
        without_white_space(text.drop_first())
    } else {
        seq![text[0]] + without_white_space(text.drop_first())
    }
}

/// `String::push` of the standard library: the string afterwards is the
/// string before with `c` added at its end.
pub assume_specification[ String::push ](s: &mut String, c: char)
    ensures
        final(s)@ == old(s)@.push(c),
;

/// Whether `c` carries the Unicode property `White_Space`.
pub fn is_whitespace(c: char) -> (b: bool)
    ensures
        b == is_white_space(c),
{
    ('\u{9}' <= c && c <= '\u{D}') || c == ' ' || c == '\u{85}' || c == '\u{A0}' || c
        == '\u{1680}' || ('\u{2000}' <= c && c <= '\u{200A}') || c == '\u{2028}' || c
        == '\u{2029}' || c == '\u{202F}' || c == '\u{205F}' || c == '\u{3000}'
}

/// Splits `s` into its tokens. Every parenthesis is a token of its own,
/// whatever stands next to it; whitespace separates tokens and belongs to
/// none. A text without tokens gives an empty vector.
pub fn tokenize(s: &str) -> (tokens: Vec<String>)
    ensures
        texts(tokens@) == tokens_of(s@),
        forall|k: int| 0 <= k < tokens@.len() ==> is_token(#[trigger] tokens@[k]@),
        concat(texts(tokens@)) == without_white_space(s@),
{
    let mut tokens: Vec<String> = Vec::new();
    let mut word = String::new();
    proof {
        assert(s@.skip(0) =~= s@);
    }
    for c in it: s.chars()
        invariant
            it.seq() == s@,
            no_white_space(word@),
            texts(tokens@) + split_whitespace(word@ + pad_parens(s@.skip(it.index() as int)))
                == tokens_of(s@),
    {
        proof {
            let rest = s@.skip(it.index() as int);
            lemma_scan_step(word@, rest);
            assert(rest.drop_first() =~= s@.skip(it.index() + 1));
        }
        if c == '(' || c == ')' || is_whitespace(c) {
            if !word.as_str().is_empty() {
                tokens.push(word);
                word = String::new();
            }
            if c == '(' || c == ')' {
                let mut paren = String::new();
                paren.push(c);
                tokens.push(paren);
            }
        } else {
            word.push(c);
        }
    }
    proof {
        lemma_scan_end(word@);
    }
    if !word.as_str().is_empty() {
        assert(texts(tokens@.push(word)) =~= texts(tokens@) + seq![word@]);
        tokens.push(word);
    }
    proof {
        lemma_tokens_are_isolated(s@);
        lemma_tokens_keep_text(s@);
        assert forall|k: int| 0 <= k < tokens@.len() implies is_token(#[trigger] tokens@[k]@) by {
            assert(tokens@[k]@ == texts(tokens@)[k]);
        }
    }
    tokens
}

/// What a word leaves when it ends: itself, or nothing if it is empty.
pub open spec fn word_tokens(word: Seq<char>) -> Seq<Seq<char>> {
    if word.len() == 0 {
        Seq::empty()
    } else {
        seq![word]
    }
}

/// What a character that ends a word leaves: a parenthesis leaves itself,
/// whitespace leaves nothing.
pub open spec fn separator_tokens(c: char) -> Seq<Seq<char>> {
    if is_paren(c) {
        seq![seq![c]]
    } else {
        Seq::empty()
    }
}

/// The longest whitespace-free prefix lies within the text, holds no
/// whitespace, and is followed by whitespace or by the end of the text.
pub proof fn lemma_word_len(text: Seq<char>)
    ensures
        word_len(text) <= text.len(),
        text.len() > 0 && !is_white_space(text[0]) ==> word_len(text) >= 1,
        forall|i: int| 0 <= i < word_len(text) ==> !is_white_space(#[trigger] text[i]),
        word_len(text) < text.len() ==> is_white_space(text[word_len(text) as int]),
    decreases text.len(),
{
    if text.len() > 0 && !is_white_space(text[0]) {
        let rest = text.drop_first();
        lemma_word_len(rest);
        assert forall|i: int| 0 <= i < word_len(text) implies !is_white_space(
            #[trigger] text[i],
        ) by {
            if i > 0 {
                assert(text[i] == rest[i - 1]);
            }
        }
    }
}

/// A word that is followed by whitespace, or by nothing, is the first run of
/// the text, if it is not empty; the other runs are those of what follows.
pub proof fn lemma_split_word(word: Seq<char>, rest: Seq<char>)
    requires
        no_white_space(word),
        rest.len() == 0 || is_white_space(rest[0]),
    ensures
        split_whitespace(word + rest) == word_tokens(word) + split_whitespace(rest),
{
    let text = word + rest;
    if word.len() > 0 {
        lemma_word_len(text);
        let n = word_len(text);
        if n > word.len() {
            assert(text[word.len() as int] == rest[0]);
        }
        assert(text.take(n as int) =~= word);
        assert(text.skip(n as int) =~= rest);
    }
}

/// Leading whitespace belongs to no run.
pub proof fn lemma_split_separator(c: char, rest: Seq<char>)
    requires
        is_white_space(c),
    ensures
        split_whitespace(seq![c] + rest) == split_whitespace(rest),
{
    assert((seq![c] + rest).drop_first() =~= rest);
}

/// How the first character of `text` adds to the tokens, for a word that
/// was begun before it: a parenthesis or a whitespace character ends the
/// word, and a parenthesis is a token by itself; any other character goes on
/// with the word.
pub proof fn lemma_scan_step(word: Seq<char>, text: Seq<char>)
    requires
        no_white_space(word),
        text.len() > 0,
    ensures
        split_whitespace(word + pad_parens(text)) == (if is_paren(text[0]) || is_white_space(
            text[0],
        ) {
            word_tokens(word) + separator_tokens(text[0]) + split_whitespace(
                pad_parens(text.drop_first()),
            )
        } else {
            split_whitespace(word.push(text[0]) + pad_parens(text.drop_first()))
        }),
{
    let c = text[0];
    let rest = pad_parens(text.drop_first());
    if is_paren(c) {
        let tail = seq![' '] + rest;
        assert(pad_parens(text) =~= seq![' '] + (seq![c] + tail));
        lemma_split_word(word, pad_parens(text));
        lemma_split_separator(' ', seq![c] + tail);
        lemma_split_word(seq![c], tail);
        lemma_split_separator(' ', rest);
    } else if is_white_space(c) {
        lemma_split_word(word, pad_parens(text));
        lemma_split_separator(c, rest);
    } else {
        assert(word.push(c) + rest =~= word + pad_parens(text));
    }
}

/// At the end of the text, the word that was begun is the last token.
pub proof fn lemma_scan_end(word: Seq<char>)
    requires
        no_white_space(word),
    ensures
        split_whitespace(word + pad_parens(Seq::empty())) == word_tokens(word),
{
    lemma_split_word(word, Seq::empty());
}

/// The tokens of a text that follows a word begun before it are all
/// well-shaped, if the word so far holds no whitespace and no parenthesis.
proof fn lemma_scan_isolates(word: Seq<char>, text: Seq<char>)
    requires
        no_white_space(word),
        no_paren(word),
    ensures
        forall|k: int|
            0 <= k < split_whitespace(word + pad_parens(text)).len() ==> is_token(
                #[trigger] split_whitespace(word + pad_parens(text))[k],
            ),
    decreases text.len(),
{
    if text.len() == 0 {
        lemma_scan_end(word);
    } else {
        let rest = text.drop_first();
        lemma_scan_step(word, text);
        if is_paren(text[0]) || is_white_space(text[0]) {
            lemma_scan_isolates(Seq::empty(), rest);
            assert(Seq::<char>::empty() + pad_parens(rest) =~= pad_parens(rest));
        } else {
            lemma_scan_isolates(word.push(text[0]), rest);
        }
    }
}

/// Every token is well-shaped, whatever the text: parentheses are always
/// tokens of their own, and no token is empty or holds whitespace.
pub proof fn lemma_tokens_are_isolated(text: Seq<char>)
    ensures
        forall|k: int| 0 <= k < tokens_of(text).len() ==> is_token(#[trigger] tokens_of(text)[k]),
{
    lemma_scan_isolates(Seq::empty(), text);
    assert(Seq::<char>::empty() + pad_parens(text) =~= pad_parens(text));
}

/// At most one token, written out, is that token.
proof fn lemma_concat_short(word: Seq<char>, c: char)
    ensures
        concat(word_tokens(word)) == word,
        concat(separator_tokens(c)) == (if is_paren(c) {
            seq![c]
        } else {
            Seq::empty()
        }),
{
    assert(concat(Seq::empty()) =~= Seq::empty());
    assert(seq![word].drop_first() =~= Seq::empty());
    assert(seq![seq![c]].drop_first() =~= Seq::empty());
}

/// Writing two sequences of tokens one after the other.
proof fn lemma_concat_add(left: Seq<Seq<char>>, right: Seq<Seq<char>>)
    ensures
        concat(left + right) == concat(left) + concat(right),
    decreases left.len(),
{
    if left.len() > 0 {
        lemma_concat_add(left.drop_first(), right);
        assert((left + right).drop_first() =~= left.drop_first() + right);
    }
}

/// The tokens of a text that follows a word begun before it spell the word
/// and then the text without its whitespace.
proof fn lemma_scan_keeps(word: Seq<char>, text: Seq<char>)
    requires
        no_white_space(word),
    ensures
        concat(split_whitespace(word + pad_parens(text))) == word + without_white_space(text),
    decreases text.len(),
{
    if text.len() == 0 {
        lemma_scan_end(word);
        lemma_concat_short(word, ' ');
    } else {
        let c = text[0];
        let rest = text.drop_first();
        lemma_scan_step(word, text);
        if is_paren(c) || is_white_space(c) {
            lemma_scan_keeps(Seq::empty(), rest);
            let tail = split_whitespace(pad_parens(rest));
            lemma_concat_add(word_tokens(word) + separator_tokens(c), tail);
            lemma_concat_add(word_tokens(word), separator_tokens(c));
            lemma_concat_short(word, c);
        } else {
            lemma_scan_keeps(word.push(c), rest);
        }
    }
}

/// Tokenizing loses nothing but whitespace and adds nothing: the tokens, one
/// after the other, spell the text without its whitespace.
pub proof fn lemma_tokens_keep_text(text: Seq<char>)
    ensures
        concat(tokens_of(text)) == without_white_space(text),
{
    lemma_scan_keeps(Seq::empty(), text);
}

/// Tokenizing is a function of the text: two results for texts that read the
/// same hold the same tokens.
pub proof fn lemma_tokenize_deterministic(
    first: Seq<char>,
    second: Seq<char>,
    first_tokens: Vec<String>,
    second_tokens: Vec<String>,
)
    requires
        first == second,
        texts(first_tokens@) == tokens_of(first),
        texts(second_tokens@) == tokens_of(second),
    ensures
        texts(first_tokens@) == texts(second_tokens@),
{
}

} // verus!
