//! Tokens: what a word of a line stands for.

use vstd::prelude::*;
use vstd::string::*;

verus! {

/// One word of a line, read for what it stands for.
#[derive(Debug, PartialEq, Eq)]
pub enum Token {
    /// Anything that is nothing else: the text of a number.
    Number(String),
    /// `mem` and a name: the value of the memory of that name.
    MemoryRef(String),
    /// `mem`, a name and `+`: add to the memory of that name.
    MemoryPlus(String),
    /// `mem`, a name and `-`: take away from the memory of that name.
    MemoryMinus(String),
    /// `+`
    Plus,
    /// `-`
    Minus,
    /// `*`
    Asterisk,
    /// `/`
    Slash,
    /// `(`
    LParen,
    /// `)`
    RParen,
}

/// The mathematical value of a `Token`.
pub enum TokenView {
    Number(Seq<char>),
    MemoryRef(Seq<char>),
    MemoryPlus(Seq<char>),
    MemoryMinus(Seq<char>),
    Plus,
    Minus,
    Asterisk,
    Slash,
    LParen,
    RParen,
}

impl View for Token {
    type V = TokenView;

    open spec fn view(&self) -> TokenView {
        match self {
            Token::Number(text) => TokenView::Number(text@),
            Token::MemoryRef(name) => TokenView::MemoryRef(name@),
            Token::MemoryPlus(name) => TokenView::MemoryPlus(name@),
            Token::MemoryMinus(name) => TokenView::MemoryMinus(name@),
            Token::Plus => TokenView::Plus,
            Token::Minus => TokenView::Minus,
            Token::Asterisk => TokenView::Asterisk,
            Token::Slash => TokenView::Slash,
            Token::LParen => TokenView::LParen,
            Token::RParen => TokenView::RParen,
        }
    }
}

impl DeepView for Token {
    type V = TokenView;

    open spec fn deep_view(&self) -> TokenView {
        self@
    }
}

/// Whether a word begins with `mem`.
pub open spec fn names_memory(word: Seq<char>) -> bool {
    word.len() >= 3 && word[0] == 'm' && word[1] == 'e' && word[2] == 'm'
}

/// What a word stands for. The six signs stand for themselves. A word that
/// begins with `mem` names a memory: what follows `mem` is the name, but for
/// a `+` or `-` at the very end, which makes the word a command to add to
/// the memory or to take away from it. Every other word is taken for a
/// number.
pub open spec fn classify(word: Seq<char>) -> TokenView {
    if word == seq!['+'] {
        TokenView::Plus
    } else if word == seq!['-'] {
        TokenView::Minus
    } else if word == seq!['*'] {
        TokenView::Asterisk
    } else if word == seq!['/'] {
        TokenView::Slash
    } else if word == seq!['('] {
        TokenView::LParen
    } else if word == seq![')'] {
        TokenView::RParen
    } else if names_memory(word) {
        if word.last() == '+' {
            TokenView::MemoryPlus(word.subrange(3, word.len() - 1))
        } else if word.last() == '-' {
            TokenView::MemoryMinus(word.subrange(3, word.len() - 1))
        } else {
            TokenView::MemoryRef(word.subrange(3, word.len() as int))
        }
    } else {
        TokenView::Number(word)
    }
}

impl Token {
    /// Reads a word as a token.
    pub fn parse(value: &str) -> (token: Token)
        ensures
            token@ == classify(value@),
    {
        let len = value.unicode_len();
        if len == 1 {
            let sign = value.get_char(0);
            assert(value@ =~= seq![sign]);
            if sign == '+' {
                return Token::Plus;
            } else if sign == '-' {
                return Token::Minus;
            } else if sign == '*' {
                return Token::Asterisk;
            } else if sign == '/' {
                return Token::Slash;
            } else if sign == '(' {
                return Token::LParen;
            } else if sign == ')' {
                return Token::RParen;
            }
        }
        if len >= 3 && value.get_char(0) == 'm' && value.get_char(1) == 'e' && value.get_char(2)
            == 'm' {
            let last = value.get_char(len - 1);
            if last == '+' {
                Token::MemoryPlus(String::from_str(value.substring_char(3, len - 1)))
            } else if last == '-' {
                Token::MemoryMinus(String::from_str(value.substring_char(3, len - 1)))
            } else {
                Token::MemoryRef(String::from_str(value.substring_char(3, len)))
            }
        } else {
            Token::Number(String::from_str(value))
        }
    }
}

/// Whether a character is white space as Unicode defines it: whether it has
/// the property `White_Space`.
pub uninterp spec fn is_white_space(c: char) -> bool;

/// `is_whitespace` of the standard library, on a `char`. The result is given
/// the name `is_white_space`; nothing more is claimed of it.
#[verifier::external_body]
fn is_whitespace(c: char) -> (white: bool)
    ensures
        white == is_white_space(c),
{
    c.is_whitespace()
}

/// The position of the first mark, or the number of marks if none is set.
pub open spec fn first_mark(marks: Seq<bool>) -> int
    decreases marks.len(),
{
    if marks.len() == 0 {
        0
    } else if marks[0] {
        0
    } else {
        1 + first_mark(marks.drop_first())
    }
}

/// The tokens of a text that is cut at the marked characters. Each piece
/// between two cuts, before the first and after the last is read as a word,
/// also where it is empty; the marked characters themselves belong to no
/// piece.
pub open spec fn spec_cut(text: Seq<char>, marks: Seq<bool>) -> Seq<TokenView>
    decreases text.len(),
{
    let gap = first_mark(marks);
    if gap < 0 || gap >= text.len() || marks.len() != text.len() {
        seq![classify(text)]
    } else {
        seq![classify(text.take(gap))] + spec_cut(text.skip(gap + 1), marks.skip(gap + 1))
    }
}

/// For each character of a text, whether it is white space.
pub open spec fn white_marks(text: Seq<char>) -> Seq<bool> {
    Seq::new(text.len(), |i: int| is_white_space(text[i]))
}

/// The tokens of a line: the line cut at every white-space character.
pub open spec fn spec_split(text: Seq<char>) -> Seq<TokenView> {
    spec_cut(text, white_marks(text))
}

/// `first_mark` is where the first mark is.
pub proof fn lemma_first_mark(marks: Seq<bool>, at: int)
    requires
        0 <= at <= marks.len(),
        forall|k: int| 0 <= k < at ==> !#[trigger] marks[k],
        at < marks.len() ==> marks[at],
    ensures
        first_mark(marks) == at,
    decreases marks.len(),
{
    if marks.len() > 0 && at > 0 {
        let rest = marks.drop_first();
        assert(!marks[0]);
        assert forall|k: int| 0 <= k < at - 1 implies !#[trigger] rest[k] by {
            assert(rest[k] == marks[k + 1]);
        }
        lemma_first_mark(rest, at - 1);
    }
}

impl Token {
    /// Cuts a text at the marked characters and reads each piece as a word.
    /// There is one mark for each character of the text.
    pub fn cut(text: &str, marks: &Vec<bool>) -> (tokens: Vec<Token>)
        requires
            marks.len() == text@.len(),
        ensures
            tokens.deep_view() == spec_cut(text@, marks@),
            tokens.len() >= 1,
    {
        let n = marks.len();
        let mut tokens: Vec<Token> = Vec::new();
        let mut start: usize = 0;
        let mut i: usize = 0;
        assert(text@.skip(0) =~= text@ && marks@.skip(0) =~= marks@);
        while i < n
            invariant
                n == text@.len(),
                n == marks.len(),
                start <= i <= n,
                forall|k: int| start <= k < i ==> !#[trigger] marks[k],
                tokens.deep_view() + spec_cut(text@.skip(start as int), marks@.skip(start as int))
                    =~= spec_cut(text@, marks@),
            decreases n - i,
        {
            if marks[i] {
                let ghost rest = text@.skip(start as int);
                let ghost rest_marks = marks@.skip(start as int);
                let ghost before = tokens.deep_view();
                proof {
                    assert forall|k: int| 0 <= k < i - start implies !#[trigger] rest_marks[k] by {
                        assert(rest_marks[k] == marks[start + k]);
                    }
                    lemma_first_mark(rest_marks, i - start);
                    assert(rest.take(i - start) =~= text@.subrange(start as int, i as int));
                    assert(rest.skip(i - start + 1) =~= text@.skip(i as int + 1));
                    assert(rest_marks.skip(i - start + 1) =~= marks@.skip(i as int + 1));
                }
                let token = Token::parse(text.substring_char(start, i));
                tokens.push(token);
                assert(tokens.deep_view() =~= before.push(
                    classify(text@.subrange(start as int, i as int)),
                ));
                start = i + 1;
            }
            i += 1;
        }
        let ghost rest = text@.skip(start as int);
        let ghost rest_marks = marks@.skip(start as int);
        let ghost before = tokens.deep_view();
        proof {
            assert forall|k: int| 0 <= k < n - start implies !#[trigger] rest_marks[k] by {
                assert(rest_marks[k] == marks[start + k]);
            }
            lemma_first_mark(rest_marks, n - start);
            assert(rest =~= text@.subrange(start as int, n as int));
        }
        let token = Token::parse(text.substring_char(start, n));
        tokens.push(token);
        assert(tokens.deep_view() =~= before.push(classify(text@.subrange(start as int, n as int))));
        tokens
    }

    /// Reads a line as tokens: cuts it at every white-space character and
    /// reads each piece as a word.
    pub fn split(text: &str) -> (tokens: Vec<Token>)
        ensures
            tokens.deep_view() == spec_split(text@),
            tokens.len() >= 1,
    {
        let n = text.unicode_len();
        let mut marks: Vec<bool> = Vec::new();
        let mut i: usize = 0;
        while i < n
            invariant
                n == text@.len(),
                i <= n,
                marks@ =~= white_marks(text@).take(i as int),
            decreases n - i,
        {
            marks.push(is_whitespace(text.get_char(i)));
            i += 1;
        }
        assert(white_marks(text@).take(n as int) =~= white_marks(text@));
        Token::cut(text, &marks)
    }
}

} // verus!
