//! # Turning source text into tokens

use vstd::prelude::*;

verus! {

/// # A token produced by the tokenizer
#[derive(Debug, PartialEq, Eq)]
pub enum Token {
    Comment { text: String },
    Delimiter,
    KeywordEnd,
    KeywordFn,
    FunctionName { name: String },
    BranchStart,
    BranchBodyStart,
    Identifier { name: String },
    IntegerLiteral { value: i32 },
}

/// # The mathematical model of a [`Token`]
pub ghost enum TokenView {
    Comment { text: Seq<char> },
    Delimiter,
    KeywordEnd,
    KeywordFn,
    FunctionName { name: Seq<char> },
    BranchStart,
    BranchBodyStart,
    Identifier { name: Seq<char> },
    IntegerLiteral { value: i32 },
}

impl DeepView for Token {
    type V = TokenView;

    open spec fn deep_view(&self) -> TokenView {
        match self {
            Token::Comment { text } => TokenView::Comment { text: text@ },
            Token::Delimiter => TokenView::Delimiter,
            Token::KeywordEnd => TokenView::KeywordEnd,
            Token::KeywordFn => TokenView::KeywordFn,
            Token::FunctionName { name } => TokenView::FunctionName { name: name@ },
            Token::BranchStart => TokenView::BranchStart,
            Token::BranchBodyStart => TokenView::BranchBodyStart,
            Token::Identifier { name } => TokenView::Identifier { name: name@ },
            Token::IntegerLiteral { value } => TokenView::IntegerLiteral { value: *value },
        }
    }
}

/// Whether `c` is one of the ASCII digits `0` to `9`
pub open spec fn is_digit(c: char) -> bool {
    '0' <= c && c <= '9'
}

/// The numeric value of the ASCII digits in `s`, read as a decimal number
pub open spec fn digits_value(s: Seq<char>) -> int
    decreases s.len(),
{
    if s.len() == 0 {
        0
    } else {
        digits_value(s.drop_last()) * 10 + (s.last() as int - '0' as int)
    }
}

/// Whether `s` consists of ASCII digits alone
pub open spec fn all_digits(s: Seq<char>) -> bool {
    forall|i: int| 0 <= i < s.len() ==> is_digit(#[trigger] s[i])
}

/// `s` without its leading `+` or `-`, if it has one
pub open spec fn without_sign(s: Seq<char>) -> Seq<char> {
    if s.len() > 0 && (s[0] == '-' || s[0] == '+') {
        s.drop_first()
    } else {
        s
    }
}

/// The `i32` that `s` denotes, as std's `str::parse::<i32>` reads it: an
/// optional `+` or `-`, then one or more ASCII digits, with a value that fits
/// into `i32`.
pub open spec fn parse_i32(s: Seq<char>) -> Option<i32> {
    let digits = without_sign(s);
    let value = if s.len() > 0 && s[0] == '-' {
        -digits_value(digits)
    } else {
        digits_value(digits)
    };
    if digits.len() > 0 && all_digits(digits) && i32::MIN <= value <= i32::MAX {
        Some(value as i32)
    } else {
        None
    }
}

proof fn lemma_digits_value_prefix(s: Seq<char>, k: int)
    requires
        0 <= k <= s.len(),
        forall|i: int| 0 <= i < s.len() ==> is_digit(#[trigger] s[i]),
    ensures
        digits_value(s.take(k)) <= digits_value(s),
        0 <= digits_value(s.take(k)),
    decreases s.len(),
{
    if k == s.len() {
        assert(s.take(k) =~= s);
        lemma_digits_value_nonneg(s);
    } else {
        let t = s.drop_last();
        assert(t.take(k) =~= s.take(k));
        lemma_digits_value_prefix(t, k);
        lemma_digits_value_nonneg(t);
    }
}

proof fn lemma_digits_value_nonneg(s: Seq<char>)
    requires
        forall|i: int| 0 <= i < s.len() ==> is_digit(#[trigger] s[i]),
    ensures
        0 <= digits_value(s),
    decreases s.len(),
{
    if s.len() > 0 {
        let t = s.drop_last();
        assert(forall|i: int| 0 <= i < t.len() ==> t[i] == s[i]);
        lemma_digits_value_nonneg(t);
        assert(is_digit(s[s.len() - 1]));
    }
}

/// Reads `s` as a decimal `i32`, as std's `str::parse::<i32>` does
pub fn parse_i32_chars(s: &Vec<char>) -> (r: Option<i32>)
    ensures
        r == parse_i32(s@),
{
    let n = s.len();
    let negative = n > 0 && s[0] == '-';
    let start: usize = if n > 0 && (s[0] == '-' || s[0] == '+') { 1 } else { 0 };
    let ghost digits = without_sign(s@);
    assert(digits =~= s@.subrange(start as int, n as int));
    if start == n {
        return None;
    }
    let mut acc: i64 = 0;
    let mut i: usize = start;
    while i < n
        invariant
            start <= i <= n,
            start < n,
            n == s.len(),
            digits =~= s@.subrange(start as int, n as int),
            digits == without_sign(s@),
            negative == (s@.len() > 0 && s@[0] == '-'),
            forall|j: int| 0 <= j < i - start ==> is_digit(#[trigger] digits[j]),
            acc == digits_value(digits.take(i - start)),
            0 <= acc <= 2147483648,
        decreases n - i,
    {
        let c = s[i];
        if !('0' <= c && c <= '9') {
            assert(digits[i - start] == s@[i as int]);
            assert(!is_digit(digits[i - start]));
            assert(!all_digits(digits));
            return None;
        }
        let d: i64 = (c as u32 - '0' as u32) as i64;
        assert(digits.take(i + 1 - start).drop_last() =~= digits.take(i - start));
        acc = acc * 10 + d;
        i = i + 1;
        if acc > 2147483648 {
            proof {
                if all_digits(digits) {
                    lemma_digits_value_prefix(digits, i - start);
                    assert(digits_value(digits) > i32::MAX);
                }
            }
            return None;
        }
    }
    assert(digits.take(n - start) =~= digits);
    if negative {
        Some((-acc) as i32)
    } else if acc > 2147483647 {
        None
    } else {
        Some(acc as i32)
    }
}


/// The token that a word between separators stands for: nothing for an empty
/// word, an integer literal where the word reads as an `i32`, a keyword for
/// `end` and `fn`, and an identifier otherwise.
pub open spec fn literal_or_keyword(word: Seq<char>) -> Seq<TokenView> {
    if word.len() == 0 {
        seq![]
    } else {
        match parse_i32(word) {
            Some(value) => seq![TokenView::IntegerLiteral { value }],
            None => if word == seq!['e', 'n', 'd'] {
                seq![TokenView::KeywordEnd]
            } else if word == seq!['f', 'n'] {
                seq![TokenView::KeywordFn]
            } else {
                seq![TokenView::Identifier { name: word }]
            },
        }
    }
}

/// Whether `s` ends with `suffix`
pub open spec fn ends_with(s: Seq<char>, suffix: Seq<char>) -> bool {
    suffix.len() <= s.len() && s.subrange(s.len() - suffix.len(), s.len() as int) == suffix
}

/// `s` with its last `n` characters removed
pub open spec fn without_end(s: Seq<char>, n: nat) -> Seq<char> {
    s.subrange(0, s.len() - n)
}

/// # Characters that have been read but not yet turned into a token
pub struct Buffer {
    inner: Vec<char>,
}

impl View for Buffer {
    type V = Seq<char>;

    closed spec fn view(&self) -> Seq<char> {
        self.inner@
    }
}

/// Whether `c` is white space: whether it has the Unicode `White_Space`
/// property, as std's `char::is_whitespace` decides it
pub open spec fn is_whitespace(c: char) -> bool {
    let x = c as u32;
    ||| 0x9 <= x <= 0xD
    ||| x == 0x20
    ||| x == 0x85
    ||| x == 0xA0
    ||| x == 0x1680
    ||| 0x2000 <= x <= 0x200A
    ||| x == 0x2028
    ||| x == 0x2029
    ||| x == 0x202F
    ||| x == 0x205F
    ||| x == 0x3000
}

/// Among the ASCII characters, the white space is the tab, the line feed,
/// the vertical tab, the form feed, the carriage return and the space.
pub proof fn ascii_white_space(c: char)
    ensures
        (c as u32) < 0x80 ==> (is_whitespace(c) <==> (c == '\t' || c == '\n' || c == '\x0B' || c == '\x0C'
            || c == '\r' || c == ' ')),
{
}

/// # Whether `c` is white space
fn char_is_whitespace(c: char) -> (r: bool)
    ensures
        r == is_whitespace(c),
{
    let x = c as u32;
    (0x9 <= x && x <= 0xD) || x == 0x20 || x == 0x85 || x == 0xA0 || x == 0x1680 || (0x2000 <= x && x
        <= 0x200A) || x == 0x2028 || x == 0x2029 || x == 0x202F || x == 0x205F || x == 0x3000
}

/// std's `String::from_iter` over characters: the string made of `chars`, in
/// order.
#[verifier::external_body]
fn string_from_chars(chars: &Vec<char>) -> (r: String)
    ensures
        r@ == chars@,
{
    String::from_iter(chars.iter())
}

/// # The characters of `s`, in order
pub fn chars_of(s: &str) -> (r: Vec<char>)
    ensures
        r@ == s@,
{
    let n = s.unicode_len();
    let mut r: Vec<char> = Vec::new();
    let mut i: usize = 0;
    while i < n
        invariant
            n == s@.len(),
            i <= n,
            r@ == s@.take(i as int),
        decreases n - i,
    {
        r.push(s.get_char(i));
        i = i + 1;
        assert(r@ =~= s@.take(i as int));
    }
    assert(s@.take(n as int) =~= s@);
    r
}

impl Buffer {
    /// # Create an empty buffer
    pub fn new() -> (r: Buffer)
        ensures
            r@ == Seq::<char>::empty(),
    {
        Buffer { inner: Vec::new() }
    }

    /// # Append a character
    pub fn push(&mut self, ch: char)
        ensures
            final(self)@ == old(self)@.push(ch),
    {
        self.inner.push(ch);
    }

    /// # Take all characters out of the buffer, as a string
    pub fn take(&mut self) -> (r: String)
        ensures
            r@ == old(self)@,
            final(self)@ == Seq::<char>::empty(),
    {
        let r = string_from_chars(&self.inner);
        self.inner = Vec::new();
        r
    }

    /// # Take all characters out of the buffer, if there are any
    pub fn take_if_not_empty(&mut self) -> (r: Option<String>)
        ensures
            final(self)@ == Seq::<char>::empty(),
            r is None <==> old(self)@.len() == 0,
            r matches Some(s) ==> s@ == old(self)@,
    {
        if self.inner.len() == 0 {
            None
        } else {
            Some(self.take())
        }
    }

    /// # Turn the buffered word into a literal, keyword or identifier token
    ///
    /// Appends nothing, if the buffer is empty. Empties the buffer.
    pub fn take_literal_or_keyword_identifier(&mut self, tokens: &mut Vec<Token>)
        ensures
            final(self)@ == Seq::<char>::empty(),
            final(tokens).deep_view() == old(tokens).deep_view() + literal_or_keyword(old(self)@),
    {
        let ghost word = self.inner@;
        if self.inner.len() == 0 {
            assert(old(tokens).deep_view() + literal_or_keyword(word) =~= old(tokens).deep_view());
            return;
        }
        let parsed = parse_i32_chars(&self.inner);
        let is_end = self.inner.len() == 3 && self.inner[0] == 'e' && self.inner[1] == 'n'
            && self.inner[2] == 'd';
        let is_fn = self.inner.len() == 2 && self.inner[0] == 'f' && self.inner[1] == 'n';
        proof {
            if is_end {
                assert(word =~= seq!['e', 'n', 'd']);
            } else {
                assert(word != seq!['e', 'n', 'd']) by {
                    if word == seq!['e', 'n', 'd'] {
                        assert(word.len() == 3 && word[0] == 'e' && word[1] == 'n' && word[2] == 'd');
                    }
                }
            }
            if is_fn {
                assert(word =~= seq!['f', 'n']);
            } else {
                assert(word != seq!['f', 'n']) by {
                    if word == seq!['f', 'n'] {
                        assert(word.len() == 2 && word[0] == 'f' && word[1] == 'n');
                    }
                }
            }
        }
        let text = self.take();
        let token = match parsed {
            Some(value) => Token::IntegerLiteral { value },
            None => if is_end {
                Token::KeywordEnd
            } else if is_fn {
                Token::KeywordFn
            } else {
                Token::Identifier { name: text }
            },
        };
        tokens.push(token);
        assert(final(tokens).deep_view() =~= old(tokens).deep_view() + literal_or_keyword(word));
    }

    /// # Remove `s` from the end of the buffer, if the buffer ends with it
    ///
    /// Returns whether it did.
    pub fn take_from_end(&mut self, s: &str) -> (r: bool)
        ensures
            r == ends_with(old(self)@, s@),
            r ==> final(self)@ == without_end(old(self)@, s@.len()),
            !r ==> final(self)@ == old(self)@,
    {
        let n = s.unicode_len();
        let len = self.inner.len();
        if n > len {
            return false;
        }
        let start = len - n;
        let mut i: usize = 0;
        while i < n
            invariant
                n == s@.len(),
                len == self.inner@.len(),
                start == len - n,
                i <= n,
                forall|j: int| 0 <= j < i ==> self.inner@[start + j] == s@[j],
            decreases n - i,
        {
            if self.inner[start + i] != s.get_char(i) {
                assert(self.inner@.subrange(start as int, len as int)[i as int] != s@[i as int]);
                return false;
            }
            i = i + 1;
        }
        assert(self.inner@.subrange(start as int, len as int) =~= s@);
        self.inner.truncate(start);
        assert(self.inner@ =~= without_end(old(self)@, s@.len()));
        true
    }
}


/// # The state of the tokenizer between two characters
pub ghost struct Tokenizing {
    /// Whether the tokenizer is inside a comment
    pub in_comment: bool,
    /// The characters read since the last token
    pub buffer: Seq<char>,
    /// The tokens produced so far
    pub tokens: Seq<TokenView>,
}

/// The eager token `token`, written as `s`, taken from the end of `buffer`
///
/// Where the buffer ends with `s`, what precedes `s` becomes a literal, keyword
/// or identifier, followed by `token`, and the buffer is emptied. Otherwise
/// nothing changes.
pub open spec fn take_eager(t: Tokenizing, s: Seq<char>, token: TokenView) -> Tokenizing {
    if ends_with(t.buffer, s) {
        Tokenizing {
            in_comment: t.in_comment,
            buffer: seq![],
            tokens: t.tokens + literal_or_keyword(without_end(t.buffer, s.len())) + seq![token],
        }
    } else {
        t
    }
}

/// The eager tokens and how they are written: `,`, `\` and `->`
pub open spec fn take_eager_tokens(t: Tokenizing) -> Tokenizing {
    let t = take_eager(t, seq![','], TokenView::Delimiter);
    let t = take_eager(t, seq!['\\'], TokenView::BranchStart);
    take_eager(t, seq!['-', '>'], TokenView::BranchBodyStart)
}

/// The tokenizer's state after reading `ch`
pub open spec fn tokenize_step(t: Tokenizing, ch: char) -> Tokenizing {
    if t.in_comment {
        if ch == '\n' {
            Tokenizing {
                in_comment: false,
                buffer: seq![],
                tokens: t.tokens.push(TokenView::Comment { text: t.buffer }),
            }
        } else {
            Tokenizing { buffer: t.buffer.push(ch), ..t }
        }
    } else if ch == '#' {
        Tokenizing {
            in_comment: true,
            buffer: seq![],
            tokens: t.tokens + literal_or_keyword(t.buffer),
        }
    } else if ch == ':' {
        Tokenizing {
            in_comment: false,
            buffer: seq![],
            tokens: t.tokens.push(TokenView::FunctionName { name: t.buffer }),
        }
    } else if is_whitespace(ch) {
        Tokenizing {
            in_comment: false,
            buffer: seq![],
            tokens: t.tokens + literal_or_keyword(t.buffer),
        }
    } else {
        take_eager_tokens(Tokenizing { buffer: t.buffer.push(ch), ..t })
    }
}

/// Outside a comment, each ASCII white-space character other than the line
/// feed ends a word just as a space does: reading it gives the same state.
pub proof fn white_space_separates_like_a_space(t: Tokenizing)
    requires
        !t.in_comment,
    ensures
        tokenize_step(t, '\t') == tokenize_step(t, ' '),
        tokenize_step(t, '\x0B') == tokenize_step(t, ' '),
        tokenize_step(t, '\x0C') == tokenize_step(t, ' '),
        tokenize_step(t, '\r') == tokenize_step(t, ' '),
        tokenize_step(t, '\n') == tokenize_step(t, ' '),
{
}

/// The tokenizer's state after reading all of `chars`
pub open spec fn tokenize_chars(chars: Seq<char>) -> Tokenizing
    decreases chars.len(),
{
    if chars.len() == 0 {
        Tokenizing { in_comment: false, buffer: seq![], tokens: seq![] }
    } else {
        tokenize_step(tokenize_chars(chars.drop_last()), chars.last())
    }
}

/// The tokenizer's state after reading `chars`, starting in state `t`
pub open spec fn tokenize_from(t: Tokenizing, chars: Seq<char>) -> Tokenizing
    decreases chars.len(),
{
    if chars.len() == 0 {
        t
    } else {
        tokenize_step(tokenize_from(t, chars.drop_last()), chars.last())
    }
}

/// The state in which the tokenizer starts
pub open spec fn initial_tokenizing() -> Tokenizing {
    Tokenizing { in_comment: false, buffer: seq![], tokens: seq![] }
}

proof fn lemma_tokenize_from_initial(chars: Seq<char>)
    ensures
        tokenize_chars(chars) == tokenize_from(initial_tokenizing(), chars),
    decreases chars.len(),
{
    if chars.len() > 0 {
        lemma_tokenize_from_initial(chars.drop_last());
    }
}

proof fn lemma_tokenize_from_concat(t: Tokenizing, a: Seq<char>, b: Seq<char>)
    ensures
        tokenize_from(t, a + b) == tokenize_from(tokenize_from(t, a), b),
    decreases b.len(),
{
    if b.len() == 0 {
        assert(a + b =~= a);
    } else {
        lemma_tokenize_from_concat(t, a, b.drop_last());
        assert((a + b).drop_last() =~= a + b.drop_last());
        assert((a + b).last() == b.last());
    }
}

/// A state like `t`, with `earlier` tokens before its own
pub open spec fn with_earlier_tokens(t: Tokenizing, earlier: Seq<TokenView>) -> Tokenizing {
    Tokenizing { tokens: earlier + t.tokens, ..t }
}

proof fn lemma_take_eager_earlier(t: Tokenizing, earlier: Seq<TokenView>, s: Seq<char>, token: TokenView)
    ensures
        take_eager(with_earlier_tokens(t, earlier), s, token) == with_earlier_tokens(take_eager(t, s, token), earlier),
{
    if ends_with(t.buffer, s) {
        assert(earlier + t.tokens + literal_or_keyword(without_end(t.buffer, s.len())) + seq![token] =~= earlier + (
        t.tokens + literal_or_keyword(without_end(t.buffer, s.len())) + seq![token]));
    }
}

proof fn lemma_step_earlier(t: Tokenizing, earlier: Seq<TokenView>, ch: char)
    ensures
        tokenize_step(with_earlier_tokens(t, earlier), ch) == with_earlier_tokens(tokenize_step(t, ch), earlier),
{
    let u = with_earlier_tokens(t, earlier);
    if t.in_comment {
        if ch == '\n' {
            assert((earlier + t.tokens).push(TokenView::Comment { text: t.buffer }) =~= earlier + t.tokens.push(
                TokenView::Comment { text: t.buffer },
            ));
        }
    } else if ch == '#' || is_whitespace(ch) {
        assert(earlier + t.tokens + literal_or_keyword(t.buffer) =~= earlier + (t.tokens + literal_or_keyword(
            t.buffer,
        )));
    } else if ch == ':' {
        assert((earlier + t.tokens).push(TokenView::FunctionName { name: t.buffer }) =~= earlier + t.tokens.push(
            TokenView::FunctionName { name: t.buffer },
        ));
    } else {
        let v = Tokenizing { buffer: t.buffer.push(ch), ..t };
        assert(Tokenizing { buffer: u.buffer.push(ch), ..u } == with_earlier_tokens(v, earlier));
        let v1 = take_eager(v, seq![','], TokenView::Delimiter);
        let v2 = take_eager(v1, seq!['\\'], TokenView::BranchStart);
        lemma_take_eager_earlier(v, earlier, seq![','], TokenView::Delimiter);
        lemma_take_eager_earlier(v1, earlier, seq!['\\'], TokenView::BranchStart);
        lemma_take_eager_earlier(v2, earlier, seq!['-', '>'], TokenView::BranchBodyStart);
    }
}

proof fn lemma_tokenize_from_earlier(t: Tokenizing, earlier: Seq<TokenView>, chars: Seq<char>)
    ensures
        tokenize_from(with_earlier_tokens(t, earlier), chars) == with_earlier_tokens(tokenize_from(t, chars), earlier),
    decreases chars.len(),
{
    if chars.len() > 0 {
        lemma_tokenize_from_earlier(t, earlier, chars.drop_last());
        lemma_step_earlier(tokenize_from(t, chars.drop_last()), earlier, chars.last());
    }
}

/// After a line break, the tokenizer is back in its initial state, with the
/// tokens so far: the tokens of text that ends with a line break, followed by
/// more text, are the tokens of the first text followed by those of the
/// second.
pub proof fn tokenize_continues_after_line_break(a: Seq<char>, b: Seq<char>)
    requires
        a.len() > 0,
        a.last() == '\n',
    ensures
        spec_tokenize(a + b) == spec_tokenize(a) + spec_tokenize(b),
{
    lemma_tokenize_from_initial(a + b);
    lemma_tokenize_from_initial(a);
    lemma_tokenize_from_initial(b);
    lemma_tokenize_from_concat(initial_tokenizing(), a, b);
    let after_a = tokenize_from(initial_tokenizing(), a);
    assert(after_a.in_comment == false && after_a.buffer == Seq::<char>::empty()) by {
        assert(is_whitespace('\n'));
    }
    assert(after_a == with_earlier_tokens(initial_tokenizing(), after_a.tokens)) by {
        assert(after_a.tokens + Seq::<TokenView>::empty() =~= after_a.tokens);
    }
    lemma_tokenize_from_earlier(initial_tokenizing(), after_a.tokens, b);
}

/// The tokens of `source`
///
/// Characters after the last token that are not concluded by a separator,
/// (white space, `#`, `:`, an eager token, or the end of a comment's line)
/// produce no token.
pub open spec fn spec_tokenize(source: Seq<char>) -> Seq<TokenView> {
    tokenize_chars(source).tokens
}

/// # Split source code into tokens
pub fn tokenize(source: &str) -> (tokens: Vec<Token>)
    ensures
        tokens.deep_view() == spec_tokenize(source@),
{
    let n = source.unicode_len();
    let mut in_comment = false;
    let mut buffer = Buffer::new();
    let mut tokens: Vec<Token> = Vec::new();
    let mut i: usize = 0;
    proof {
        reveal_strlit(",");
        reveal_strlit("\\");
        reveal_strlit("->");
    }
    assert(source@.take(0) =~= Seq::<char>::empty());
    assert(tokens.deep_view() =~= Seq::<TokenView>::empty());
    while i < n
        invariant
            n == source@.len(),
            ","@ == seq![','],
            "\\"@ == seq!['\\'],
            "->"@ == seq!['-', '>'],
            i <= n,
            tokenize_chars(source@.take(i as int)) == (Tokenizing {
                in_comment,
                buffer: buffer@,
                tokens: tokens.deep_view(),
            }),
        decreases n - i,
    {
        let ch = source.get_char(i);
        let ghost before = Tokenizing { in_comment, buffer: buffer@, tokens: tokens.deep_view() };
        assert(source@.take(i + 1).drop_last() =~= source@.take(i as int));
        if in_comment {
            if ch == '\n' {
                let text = buffer.take();
                tokens.push(Token::Comment { text });
                in_comment = false;
                assert(tokens.deep_view() =~= before.tokens.push(TokenView::Comment { text: before.buffer }));
            } else {
                buffer.push(ch);
            }
        } else if ch == '#' {
            buffer.take_literal_or_keyword_identifier(&mut tokens);
            in_comment = true;
        } else if ch == ':' {
            let name = buffer.take();
            tokens.push(Token::FunctionName { name });
            assert(tokens.deep_view() =~= before.tokens.push(TokenView::FunctionName { name: before.buffer }));
        } else if char_is_whitespace(ch) {
            buffer.take_literal_or_keyword_identifier(&mut tokens);
        } else {
            buffer.push(ch);
            let ghost t0 = Tokenizing { in_comment, buffer: buffer@, tokens: tokens.deep_view() };
            if buffer.take_from_end(",") {
                let ghost mid = tokens.deep_view();
                buffer.take_literal_or_keyword_identifier(&mut tokens);
                tokens.push(Token::Delimiter);
                assert(tokens.deep_view() =~= mid + literal_or_keyword(without_end(t0.buffer, 1)) + seq![TokenView::Delimiter]);
            }
            let ghost t1 = Tokenizing { in_comment, buffer: buffer@, tokens: tokens.deep_view() };
            assert(t1 == take_eager(t0, seq![','], TokenView::Delimiter));
            if buffer.take_from_end("\\") {
                let ghost mid = tokens.deep_view();
                buffer.take_literal_or_keyword_identifier(&mut tokens);
                tokens.push(Token::BranchStart);
                assert(tokens.deep_view() =~= mid + literal_or_keyword(without_end(t1.buffer, 1)) + seq![TokenView::BranchStart]);
            }
            let ghost t2 = Tokenizing { in_comment, buffer: buffer@, tokens: tokens.deep_view() };
            assert(t2 == take_eager(t1, seq!['\\'], TokenView::BranchStart));
            if buffer.take_from_end("->") {
                let ghost mid = tokens.deep_view();
                buffer.take_literal_or_keyword_identifier(&mut tokens);
                tokens.push(Token::BranchBodyStart);
                assert(tokens.deep_view() =~= mid + literal_or_keyword(without_end(t2.buffer, 2)) + seq![TokenView::BranchBodyStart]);
            }
        }
        i = i + 1;
    }
    assert(source@.take(n as int) =~= source@);
    tokens
}

} // verus!
