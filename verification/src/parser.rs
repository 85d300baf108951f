//! Tokenizer: turns text into words, whitespace runs and control tokens.
//!
//! The token rules: a character belongs to a word unless it is whitespace
//! (the non-breaking space counts as a word character) or one of the three
//! markers (zero-width space, soft hyphen, escape). Consecutive space-class
//! characters merge into one [`Token::Whitespace`] whose count excludes any
//! zero-width spaces consumed inside the run; a zero-width space or a soft
//! hyphen at a run boundary becomes a [`Token::Break`]. Newline, carriage
//! return and tab each produce their own control token. An escape marker
//! followed by a second marker is consumed as one [`Token::Escape`]; a bare
//! marker is returned alone and scanning resumes after it.

use vstd::prelude::*;
use vstd::slice::slice_subrange;

verus! {

/// Non-breaking space: whitespace that is kept inside words.
pub const SPEC_CHAR_NBSP: char = '\u{a0}';

/// Zero-width space: an invisible wrap opportunity.
pub const SPEC_CHAR_ZWSP: char = '\u{200b}';

/// Soft hyphen: a wrap opportunity that shows a hyphen when taken.
pub const SPEC_CHAR_SHY: char = '\u{ad}';

/// The escape marker that introduces escape sequences.
pub const SPEC_CHAR_ESCAPE: char = '\u{1b}';

/// A text token.
#[derive(Clone, Copy, Debug, PartialEq, Eq)]
pub enum Token<'a> {
    /// A newline character.
    NewLine,
    /// A carriage return character.
    CarriageReturn,
    /// A tab character.
    Tab,
    /// An escape marker, bare or doubled.
    Escape,
    /// A run of space-class characters; the count excludes zero-width spaces.
    Whitespace(usize),
    /// A word: a maximal run of word characters.
    Word(&'a [char]),
    /// A wrap opportunity, with the character to show if the wrap is taken.
    Break(Option<char>),
    /// A single carried character, used when a wrap hands a visible
    /// character over to the next row.
    ExtraCharacter(char),
}

/// The mathematical form of a [`Token`]: words as character sequences.
pub enum TokenModel {
    /// A newline character.
    NewLine,
    /// A carriage return character.
    CarriageReturn,
    /// A tab character.
    Tab,
    /// An escape marker.
    Escape,
    /// A whitespace run with its space count.
    Whitespace(nat),
    /// A word.
    Word(Seq<char>),
    /// A wrap opportunity.
    Break(Option<char>),
    /// A single carried character.
    ExtraCharacter(char),
}

impl<'a> View for Token<'a> {
    type V = TokenModel;

    open spec fn view(&self) -> TokenModel {
        match self {
            Token::NewLine => TokenModel::NewLine,
            Token::CarriageReturn => TokenModel::CarriageReturn,
            Token::Tab => TokenModel::Tab,
            Token::Escape => TokenModel::Escape,
            Token::Whitespace(n) => TokenModel::Whitespace(*n as nat),
            Token::Word(w) => TokenModel::Word(w@),
            Token::Break(c) => TokenModel::Break(*c),
            Token::ExtraCharacter(c) => TokenModel::ExtraCharacter(*c),
        }
    }
}

/// The Unicode white-space characters.
pub open spec fn spec_is_whitespace(c: char) -> bool {
    c == ' ' || c == '\t' || c == '\n' || c == '\u{b}' || c == '\u{c}' || c == '\r' || c
        == '\u{85}' || c == SPEC_CHAR_NBSP || c == '\u{1680}' || ('\u{2000}' <= c && c
        <= '\u{200a}') || c == '\u{2028}' || c == '\u{2029}' || c == '\u{202f}' || c == '\u{205f}'
        || c == '\u{3000}'
}

/// Whether a character is part of the Unicode white-space set.
pub fn is_whitespace(c: char) -> (r: bool)
    ensures
        r == spec_is_whitespace(c),
{
    c == ' ' || c == '\t' || c == '\n' || c == '\u{b}' || c == '\u{c}' || c == '\r' || c
        == '\u{85}' || c == SPEC_CHAR_NBSP || c == '\u{1680}' || ('\u{2000}' <= c && c
        <= '\u{200a}') || c == '\u{2028}' || c == '\u{2029}' || c == '\u{202f}' || c == '\u{205f}'
        || c == '\u{3000}'
}

/// A word character: not whitespace (except the non-breaking space) and not
/// one of the three marker characters.
pub open spec fn spec_is_word_char(c: char) -> bool {
    (!spec_is_whitespace(c) || c == SPEC_CHAR_NBSP) && c != SPEC_CHAR_ZWSP && c != SPEC_CHAR_SHY
        && c != SPEC_CHAR_ESCAPE
}

/// Whether a character belongs to a word run.
pub fn is_word_char(c: char) -> (r: bool)
    ensures
        r == spec_is_word_char(c),
{
    (!is_whitespace(c) || c == SPEC_CHAR_NBSP) && c != SPEC_CHAR_ZWSP && c != SPEC_CHAR_SHY && c
        != SPEC_CHAR_ESCAPE
}

/// A space-class character: whitespace other than newline, carriage return,
/// tab and non-breaking space, or a zero-width space inside a run.
pub open spec fn spec_is_space_char(c: char) -> bool {
    (spec_is_whitespace(c) && c != '\n' && c != '\r' && c != '\t' && c != SPEC_CHAR_NBSP) || c
        == SPEC_CHAR_ZWSP
}

/// Whether a character belongs to a whitespace run.
pub fn is_space_char(c: char) -> (r: bool)
    ensures
        r == spec_is_space_char(c),
{
    (is_whitespace(c) && c != '\n' && c != '\r' && c != '\t' && c != SPEC_CHAR_NBSP) || c
        == SPEC_CHAR_ZWSP
}

/// Length of the maximal word-character prefix.
pub open spec fn word_run_len(s: Seq<char>) -> nat
    decreases s.len(),
{
    if s.len() == 0 || !spec_is_word_char(s[0]) {
        0
    } else {
        1 + word_run_len(s.drop_first())
    }
}

/// Length of the maximal space-class prefix.
pub open spec fn space_run_len(s: Seq<char>) -> nat
    decreases s.len(),
{
    if s.len() == 0 || !spec_is_space_char(s[0]) {
        0
    } else {
        1 + space_run_len(s.drop_first())
    }
}

/// Number of characters other than the zero-width space in a sequence.
pub open spec fn count_non_zwsp(s: Seq<char>) -> nat
    decreases s.len(),
{
    if s.len() == 0 {
        0
    } else {
        (if s[0] == SPEC_CHAR_ZWSP {
            0nat
        } else {
            1nat
        }) + count_non_zwsp(s.drop_first())
    }
}

/// The space count reported for the whitespace run at the head of `s`.
pub open spec fn space_run_count(s: Seq<char>) -> nat {
    count_non_zwsp(s.take(space_run_len(s) as int))
}

/// The first token of `s` and the number of characters it consumes.
pub open spec fn spec_next_token(s: Seq<char>) -> Option<(TokenModel, nat)> {
    if s.len() == 0 {
        None
    } else {
        let c = s[0];
        if spec_is_word_char(c) {
            Some((TokenModel::Word(s.take(word_run_len(s) as int)), word_run_len(s)))
        } else if c == '\n' {
            Some((TokenModel::NewLine, 1nat))
        } else if c == '\r' {
            Some((TokenModel::CarriageReturn, 1nat))
        } else if c == '\t' {
            Some((TokenModel::Tab, 1nat))
        } else if c == SPEC_CHAR_ZWSP {
            Some((TokenModel::Break(None), 1nat))
        } else if c == SPEC_CHAR_SHY {
            Some((TokenModel::Break(Some('-')), 1nat))
        } else if c == SPEC_CHAR_ESCAPE {
            if s.len() >= 2 && s[1] == SPEC_CHAR_ESCAPE {
                Some((TokenModel::Escape, 2nat))
            } else {
                Some((TokenModel::Escape, 1nat))
            }
        } else {
            Some((TokenModel::Whitespace(space_run_count(s)), space_run_len(s)))
        }
    }
}

/// Word runs never exceed the text.
pub proof fn lemma_word_run_len_le(s: Seq<char>)
    ensures
        word_run_len(s) <= s.len(),
    decreases s.len(),
{
    if s.len() > 0 && spec_is_word_char(s[0]) {
        lemma_word_run_len_le(s.drop_first());
    }
}

/// Space runs never exceed the text.
pub proof fn lemma_space_run_len_le(s: Seq<char>)
    ensures
        space_run_len(s) <= s.len(),
    decreases s.len(),
{
    if s.len() > 0 && spec_is_space_char(s[0]) {
        lemma_space_run_len_le(s.drop_first());
    }
}

/// Every token consumes at least one and at most all remaining characters.
pub proof fn lemma_next_token_consumes(s: Seq<char>)
    requires
        s.len() > 0,
    ensures
        spec_next_token(s) is Some,
        1 <= spec_next_token(s)->Some_0.1 <= s.len(),
{
    let c = s[0];
    if spec_is_word_char(c) {
        lemma_word_run_len_le(s);
    } else if c == '\n' || c == '\r' || c == '\t' || c == SPEC_CHAR_ZWSP || c == SPEC_CHAR_SHY || c
        == SPEC_CHAR_ESCAPE {
    } else {
        assert(spec_is_space_char(c));
        lemma_space_run_len_le(s);
    }
}

/// The run length is pinned by: all characters before it match, and the one
/// after it (if any) does not.
proof fn lemma_word_run_len_is(s: Seq<char>, n: nat)
    requires
        n <= s.len(),
        forall|i: int| 0 <= i < n ==> spec_is_word_char(s[i]),
        n == s.len() || !spec_is_word_char(s[n as int]),
    ensures
        word_run_len(s) == n,
    decreases n,
{
    if n == 0 {
    } else {
        assert(spec_is_word_char(s[0]));
        let t = s.drop_first();
        assert(forall|i: int| 0 <= i < n - 1 ==> s[i + 1] == t[i]);
        lemma_word_run_len_is(t, (n - 1) as nat);
    }
}

/// The space-run length is pinned the same way.
proof fn lemma_space_run_len_is(s: Seq<char>, n: nat)
    requires
        n <= s.len(),
        forall|i: int| 0 <= i < n ==> spec_is_space_char(s[i]),
        n == s.len() || !spec_is_space_char(s[n as int]),
    ensures
        space_run_len(s) == n,
    decreases n,
{
    if n == 0 {
    } else {
        assert(spec_is_space_char(s[0]));
        let t = s.drop_first();
        assert(forall|i: int| 0 <= i < n - 1 ==> s[i + 1] == t[i]);
        lemma_space_run_len_is(t, (n - 1) as nat);
    }
}

/// Extending a prefix by one character adds that character to the count.
proof fn lemma_count_non_zwsp_take_step(s: Seq<char>, j: int)
    requires
        0 <= j < s.len(),
    ensures
        count_non_zwsp(s.take(j + 1)) == count_non_zwsp(s.take(j)) + (if s[j] == SPEC_CHAR_ZWSP {
            0int
        } else {
            1int
        }),
    decreases j,
{
    if j == 0 {
        assert(s.take(1).drop_first() =~= s.take(0));
    } else {
        let t = s.drop_first();
        assert(s.take(j + 1).drop_first() =~= t.take(j));
        assert(s.take(j).drop_first() =~= t.take(j - 1));
        assert(s.take(j + 1)[0] == s[0]);
        assert(s.take(j)[0] == s[0]);
        lemma_count_non_zwsp_take_step(t, j - 1);
        assert(t[j - 1] == s[j]);
    }
}

/// Text parser: an immutable position inside a character slice, handing out
/// one token per call.
#[derive(Clone, Copy, Debug)]
pub struct Parser<'a> {
    text: &'a [char],
    pos: usize,
}

impl<'a> View for Parser<'a> {
    type V = Seq<char>;

    /// The characters that remain to be tokenized.
    closed spec fn view(&self) -> Seq<char> {
        self.text@.skip(self.pos as int)
    }
}

impl<'a> Parser<'a> {
    /// The position never runs past the end of the text.
    pub closed spec fn wf(&self) -> bool {
        self.pos <= self.text@.len()
    }

    /// Creates a parser over the given text.
    pub fn parse(text: &'a [char]) -> (p: Parser<'a>)
        ensures
            p.wf(),
            p@ == text@,
    {
        let p = Parser { text, pos: 0 };
        proof {
            assert(p@ =~= text@);
        }
        p
    }

    /// Whether all input has been consumed.
    pub fn is_empty(&self) -> (r: bool)
        requires
            self.wf(),
        ensures
            r == (self@.len() == 0),
    {
        self.pos >= self.text.len()
    }

    /// The number of characters that remain.
    pub fn remaining(&self) -> (r: usize)
        requires
            self.wf(),
        ensures
            r == self@.len(),
    {
        self.text.len() - self.pos
    }

    /// Returns the next token and consumes it.
    pub fn next_token(&mut self) -> (t: Option<Token<'a>>)
        requires
            old(self).wf(),
        ensures
            final(self).wf(),
            match spec_next_token(old(self)@) {
                None => t is None && final(self)@ == old(self)@,
                Some(pair) => t matches Some(tok) && tok@ == pair.0 && final(self)@ == old(
                    self,
                )@.skip(pair.1 as int),
            },
    {
        let ghost s = self@;
        let len = self.text.len();
        if self.pos >= len {
            return None;
        }
        let start = self.pos;
        let c = self.text[start];
        assert(c == s[0]);
        if is_word_char(c) {
            let mut end = start + 1;
            while end < len && is_word_char(self.text[end])
                invariant
                    start < end <= len,
                    len == self.text@.len(),
                    forall|i: int| start <= i < end ==> spec_is_word_char(self.text@[i]),
                decreases len - end,
            {
                end = end + 1;
            }
            proof {
                assert(forall|i: int|
                    0 <= i < end - start ==> s[i] == self.text@[start + i]
                        && spec_is_word_char(s[i]));
                lemma_word_run_len_is(s, (end - start) as nat);
            }
            let w = slice_subrange(self.text, start, end);
            self.pos = end;
            proof {
                assert(w@ =~= s.take(end - start));
                assert(self@ =~= s.skip(end - start));
            }
            Some(Token::Word(w))
        } else if c == '\n' {
            self.pos = start + 1;
            Some(Token::NewLine)
        } else if c == '\r' {
            self.pos = start + 1;
            Some(Token::CarriageReturn)
        } else if c == '\t' {
            self.pos = start + 1;
            Some(Token::Tab)
        } else if c == SPEC_CHAR_ZWSP {
            self.pos = start + 1;
            Some(Token::Break(None))
        } else if c == SPEC_CHAR_SHY {
            self.pos = start + 1;
            Some(Token::Break(Some('-')))
        } else if c == SPEC_CHAR_ESCAPE {
            match try_parse_escape_seq(self.text, start + 1) {
                Some(tok) => {
                    self.pos = start + 2;
                    proof {
                        assert(s[1] == self.text@[start + 1]);
                        assert(self@ =~= s.skip(2));
                    }
                    Some(tok)
                },
                None => {
                    self.pos = start + 1;
                    proof {
                        assert(s.len() >= 2 ==> s[1] == self.text@[start + 1]);
                        assert(self@ =~= s.skip(1));
                    }
                    Some(Token::Escape)
                },
            }
        } else {
            assert(spec_is_space_char(c));
            let mut end = start + 1;
            let mut count: usize = 1;
            proof {
                assert(c != SPEC_CHAR_ZWSP);
                assert(s.take(1)[0] == s[0]);
                assert(s.take(1).drop_first() =~= s.take(0));
                assert(s.take(0).len() == 0);
                assert(count_non_zwsp(s.take(0)) == 0);
                assert(s.take(1).len() == 1);
                assert(count_non_zwsp(s.take(1)) == 1);
            }
            while end < len && is_space_char(self.text[end])
                invariant
                    start < end <= len,
                    len == self.text@.len(),
                    s == self.text@.skip(start as int),
                    forall|i: int| start <= i < end ==> spec_is_space_char(self.text@[i]),
                    count == count_non_zwsp(s.take(end - start)),
                    count <= end - start,
                decreases len - end,
            {
                proof {
                    assert(s[end - start] == self.text@[end as int]);
                    lemma_count_non_zwsp_take_step(s, end - start);
                }
                if self.text[end] != SPEC_CHAR_ZWSP {
                    count = count + 1;
                }
                end = end + 1;
            }
            proof {
                assert(forall|i: int|
                    0 <= i < end - start ==> s[i] == self.text@[start + i]
                        && spec_is_space_char(s[i]));
                lemma_space_run_len_is(s, (end - start) as nat);
            }
            self.pos = end;
            proof {
                assert(self@ =~= s.skip(end - start));
            }
            Some(Token::Whitespace(count))
        }
    }

    /// Returns the next token without consuming it.
    pub fn peek_token(&self) -> (t: Option<Token<'a>>)
        requires
            self.wf(),
        ensures
            match spec_next_token(self@) {
                None => t is None,
                Some(pair) => t matches Some(tok) && tok@ == pair.0,
            },
    {
        let mut copy = *self;
        copy.next_token()
    }
}

/// Looks for a recognized escape sequence at `pos`, just after an escape
/// marker. Only a second marker is recognized; it escapes itself.
pub fn try_parse_escape_seq<'a>(text: &'a [char], pos: usize) -> (t: Option<Token<'a>>)
    ensures
        t is Some <==> pos < text@.len() && text@[pos as int] == SPEC_CHAR_ESCAPE,
        t matches Some(tok) ==> tok@ == TokenModel::Escape,
{
    if pos < text.len() && text[pos] == SPEC_CHAR_ESCAPE {
        Some(Token::Escape)
    } else {
        None
    }
}


/// All characters inside the word run are word characters.
pub proof fn lemma_word_run_all(s: Seq<char>)
    ensures
        forall|i: int| 0 <= i < word_run_len(s) ==> spec_is_word_char(s[i]),
    decreases s.len(),
{
    lemma_word_run_len_le(s);
    if s.len() > 0 && spec_is_word_char(s[0]) {
        let t = s.drop_first();
        lemma_word_run_len_le(t);
        lemma_word_run_all(t);
        assert forall|i: int| 0 <= i < word_run_len(s) implies spec_is_word_char(s[i]) by {
            if i >= 1 {
                assert(s[i] == t[i - 1]);
                assert(spec_is_word_char(t[i - 1]));
            }
        }
    }
}

/// All characters inside the space run are space-class characters.
pub proof fn lemma_space_run_all(s: Seq<char>)
    ensures
        forall|i: int| 0 <= i < space_run_len(s) ==> spec_is_space_char(s[i]),
    decreases s.len(),
{
    lemma_space_run_len_le(s);
    if s.len() > 0 && spec_is_space_char(s[0]) {
        let t = s.drop_first();
        lemma_space_run_len_le(t);
        lemma_space_run_all(t);
        assert forall|i: int| 0 <= i < space_run_len(s) implies spec_is_space_char(s[i]) by {
            if i >= 1 {
                assert(s[i] == t[i - 1]);
                assert(spec_is_space_char(t[i - 1]));
            }
        }
    }
}

/// The whole token stream of a text.
pub open spec fn spec_tokens(s: Seq<char>) -> Seq<TokenModel>
    decreases s.len(),
        via spec_tokens_dec
{
    match spec_next_token(s) {
        None => Seq::empty(),
        Some(pair) => seq![pair.0] + spec_tokens(s.skip(pair.1 as int)),
    }
}

#[via_fn]
proof fn spec_tokens_dec(s: Seq<char>) {
    if s.len() > 0 {
        lemma_next_token_consumes(s);
    }
}

/// A run of `n` plain spaces.
pub open spec fn spaces(n: nat) -> Seq<char>
    decreases n,
{
    if n == 0 {
        Seq::empty()
    } else {
        seq![' '] + spaces((n - 1) as nat)
    }
}

/// The text a token stands for once the text is rendered: words keep their
/// characters, whitespace runs expand to plain spaces, control characters
/// stay, and the marker tokens vanish.
pub open spec fn token_text(t: TokenModel) -> Seq<char> {
    match t {
        TokenModel::NewLine => seq!['\n'],
        TokenModel::CarriageReturn => seq!['\r'],
        TokenModel::Tab => seq!['\t'],
        TokenModel::Escape => Seq::empty(),
        TokenModel::Whitespace(n) => spaces(n),
        TokenModel::Word(w) => w,
        TokenModel::Break(_) => Seq::empty(),
        TokenModel::ExtraCharacter(c) => seq![c],
    }
}

/// Concatenation of the text of every token.
pub open spec fn reconstruct(ts: Seq<TokenModel>) -> Seq<char>
    decreases ts.len(),
{
    if ts.len() == 0 {
        Seq::empty()
    } else {
        token_text(ts[0]) + reconstruct(ts.drop_first())
    }
}

/// The three marker characters that never reach the output.
pub open spec fn is_marker(c: char) -> bool {
    c == SPEC_CHAR_ZWSP || c == SPEC_CHAR_SHY || c == SPEC_CHAR_ESCAPE
}

/// The text with all markers removed and every space-class character
/// replaced by a plain space.
pub open spec fn canonical(s: Seq<char>) -> Seq<char>
    decreases s.len(),
{
    if s.len() == 0 {
        Seq::empty()
    } else if is_marker(s[0]) {
        canonical(s.drop_first())
    } else if spec_is_space_char(s[0]) {
        seq![' '] + canonical(s.drop_first())
    } else {
        seq![s[0]] + canonical(s.drop_first())
    }
}

/// A prefix of word characters passes through `canonical` unchanged.
proof fn lemma_canonical_word_prefix(s: Seq<char>, n: nat)
    requires
        n <= s.len(),
        forall|i: int| 0 <= i < n ==> spec_is_word_char(s[i]),
    ensures
        canonical(s) == s.take(n as int) + canonical(s.skip(n as int)),
    decreases n,
{
    if n == 0 {
        assert(s.take(0) + canonical(s.skip(0)) =~= canonical(s.skip(0)));
        assert(s.skip(0) =~= s);
    } else {
        let c = s[0];
        assert(spec_is_word_char(c));
        assert(!is_marker(c));
        assert(!spec_is_space_char(c));
        let t = s.drop_first();
        assert(forall|i: int| 0 <= i < n - 1 ==> t[i] == s[i + 1]);
        lemma_canonical_word_prefix(t, (n - 1) as nat);
        assert(seq![c] + t.take(n - 1) =~= s.take(n as int));
        assert(t.skip(n - 1) =~= s.skip(n as int));
        assert(seq![c] + (t.take(n - 1) + canonical(t.skip(n - 1))) =~= (seq![c] + t.take(n - 1))
            + canonical(t.skip(n - 1)));
    }
}

/// A prefix of space-class characters turns into its space count.
proof fn lemma_canonical_space_prefix(s: Seq<char>, n: nat)
    requires
        n <= s.len(),
        forall|i: int| 0 <= i < n ==> spec_is_space_char(s[i]),
    ensures
        canonical(s) == spaces(count_non_zwsp(s.take(n as int))) + canonical(s.skip(n as int)),
    decreases n,
{
    if n == 0 {
        assert(s.take(0).len() == 0);
        assert(spaces(count_non_zwsp(s.take(0))) + canonical(s.skip(0)) =~= canonical(s.skip(0)));
        assert(s.skip(0) =~= s);
    } else {
        let c = s[0];
        assert(spec_is_space_char(c));
        let t = s.drop_first();
        assert(forall|i: int| 0 <= i < n - 1 ==> t[i] == s[i + 1]);
        lemma_canonical_space_prefix(t, (n - 1) as nat);
        assert(s.take(n as int)[0] == c);
        assert(s.take(n as int).drop_first() =~= t.take(n - 1));
        assert(t.skip(n - 1) =~= s.skip(n as int));
        let k = count_non_zwsp(t.take(n - 1));
        if c == SPEC_CHAR_ZWSP {
            assert(is_marker(c));
            assert(count_non_zwsp(s.take(n as int)) == k);
        } else {
            assert(!is_marker(c));
            assert(count_non_zwsp(s.take(n as int)) == 1 + k);
            assert(spaces((1 + k) as nat) == seq![' '] + spaces(k));
            assert(seq![' '] + (spaces(k) + canonical(t.skip(n - 1))) =~= (seq![' '] + spaces(k))
                + canonical(t.skip(n - 1)));
        }
    }
}

/// Tokenizer round trip: concatenating the text of every token — words
/// verbatim, whitespace runs as their counted spaces, newline, carriage
/// return and tab as themselves — rebuilds the input with the zero-width
/// space, soft hyphen and escape markers removed.
pub proof fn lemma_tokenizer_round_trip(s: Seq<char>)
    ensures
        reconstruct(spec_tokens(s)) == canonical(s),
    decreases s.len(),
{
    if s.len() == 0 {
        assert(spec_tokens(s).len() == 0);
    } else {
        lemma_next_token_consumes(s);
        let pair = spec_next_token(s)->Some_0;
        let t = pair.0;
        let k = pair.1;
        let rest = s.skip(k as int);
        let ts = spec_tokens(s);
        assert(ts == seq![t] + spec_tokens(rest));
        assert(ts[0] == t);
        assert(ts.drop_first() =~= spec_tokens(rest));
        assert(reconstruct(ts) == token_text(t) + reconstruct(spec_tokens(rest)));
        lemma_tokenizer_round_trip(rest);
        let c = s[0];
        if spec_is_word_char(c) {
            lemma_word_run_all(s);
            lemma_canonical_word_prefix(s, word_run_len(s));
        } else if c == '\n' || c == '\r' || c == '\t' {
            assert(!is_marker(c) && !spec_is_space_char(c));
            assert(s.drop_first() =~= rest);
            assert(seq![c] + canonical(rest) =~= token_text(t) + canonical(rest));
        } else if c == SPEC_CHAR_ZWSP || c == SPEC_CHAR_SHY {
            assert(is_marker(c));
            assert(s.drop_first() =~= rest);
            assert(Seq::<char>::empty() + canonical(rest) =~= canonical(rest));
        } else if c == SPEC_CHAR_ESCAPE {
            assert(is_marker(c));
            if s.len() >= 2 && s[1] == SPEC_CHAR_ESCAPE {
                let u = s.drop_first();
                assert(canonical(s) == canonical(u));
                assert(u[0] == SPEC_CHAR_ESCAPE);
                assert(is_marker(u[0]));
                assert(canonical(u) == canonical(u.drop_first()));
                assert(u.drop_first() =~= rest);
            } else {
                assert(s.drop_first() =~= rest);
            }
            assert(Seq::<char>::empty() + canonical(rest) =~= canonical(rest));
        } else {
            assert(spec_is_space_char(c));
            lemma_space_run_all(s);
            lemma_canonical_space_prefix(s, space_run_len(s));
        }
    }
}

} // verus!
