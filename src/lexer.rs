use vstd::prelude::*;
use vstd::std_specs::iter::IteratorSpec;

verus! {

/// What `char::is_whitespace` answers for `c`.
pub uninterp spec fn char_is_whitespace(c: char) -> bool;

/// What `char::is_alphabetic` answers for `c`.
pub uninterp spec fn char_is_alphabetic(c: char) -> bool;

/// What `char::is_numeric` answers for `c`.
pub uninterp spec fn char_is_numeric(c: char) -> bool;

/// What `str::to_uppercase` returns for `s`.
pub uninterp spec fn upper_of(s: Seq<char>) -> Seq<char>;

/// A command keyword.
#[allow(non_camel_case_types)]
#[derive(Debug, Clone, Copy, PartialEq, Eq, Structural)]
pub enum Command {
    INSERT,
    SELECT,
    EXIT,
}

/// A token of an input line.
#[derive(Debug)]
pub enum Token {
    SpecialChar(char),
    Command(Command),
    Number(u64),
    AlphaNumeric(String),
}

/// The content of a token.
pub enum TokenModel {
    SpecialChar(char),
    Command(Command),
    Number(u64),
    AlphaNumeric(Seq<char>),
}

impl View for Token {
    type V = TokenModel;

    open spec fn view(&self) -> TokenModel {
        match self {
            Token::SpecialChar(c) => TokenModel::SpecialChar(*c),
            Token::Command(c) => TokenModel::Command(*c),
            Token::Number(n) => TokenModel::Number(*n),
            Token::AlphaNumeric(s) => TokenModel::AlphaNumeric(s@),
        }
    }
}

/// The content of an optional token.
pub open spec fn token_view(t: Option<Token>) -> Option<TokenModel> {
    match t {
        Some(t) => Some(t@),
        None => None,
    }
}

/// The first position at or after `i` that does not hold whitespace.
pub open spec fn skip_ws(s: Seq<char>, i: int) -> int
    decreases s.len() - i,
{
    if 0 <= i < s.len() && char_is_whitespace(s[i]) {
        skip_ws(s, i + 1)
    } else {
        i
    }
}

/// Whether `c` continues a run of digits (`digits`) or of a word.
pub open spec fn in_run(c: char, digits: bool) -> bool {
    if digits {
        char_is_numeric(c)
    } else {
        char_is_alphabetic(c) || char_is_numeric(c)
    }
}

/// The end of the run that starts at `i`.
pub open spec fn run_end(s: Seq<char>, i: int, digits: bool) -> int
    decreases s.len() - i,
{
    if 0 <= i < s.len() && in_run(s[i], digits) {
        run_end(s, i + 1, digits)
    } else {
        i
    }
}

/// `c` is one of `0` to `9`.
pub open spec fn is_ascii_digit(c: char) -> bool {
    ('0' as u32) <= (c as u32) <= ('9' as u32)
}

/// The value of a string of decimal digits.
pub open spec fn digits_value(d: Seq<char>) -> int
    decreases d.len(),
{
    if d.len() == 0 {
        0
    } else {
        digits_value(d.drop_last()) * 10 + ((d.last() as u32) - ('0' as u32))
    }
}

/// `d` read as a decimal `u64`: some ASCII digits whose value fits.
pub open spec fn decimal_u64(d: Seq<char>) -> Option<u64> {
    if d.len() > 0 && (forall|i: int| 0 <= i < d.len() ==> is_ascii_digit(#[trigger] d[i]))
        && digits_value(d) <= u64::MAX {
        Some(digits_value(d) as u64)
    } else {
        None
    }
}

/// What `str::parse::<u64>` accepts: an optional `+` followed by a decimal that fits.
pub open spec fn parsed_u64(s: Seq<char>) -> Option<u64> {
    if s.len() > 0 && s[0] == '+' {
        decimal_u64(s.drop_first())
    } else {
        decimal_u64(s)
    }
}

/// The value of a run of digits; zero when it does not parse.
pub open spec fn number_value(d: Seq<char>) -> u64 {
    match parsed_u64(d) {
        Some(v) => v,
        None => 0,
    }
}

/// The command that the upper-cased word `u` names.
pub open spec fn keyword(u: Seq<char>) -> Option<Command> {
    if u == seq!['I', 'N', 'S', 'E', 'R', 'T'] {
        Some(Command::INSERT)
    } else if u == seq!['S', 'E', 'L', 'E', 'C', 'T'] {
        Some(Command::SELECT)
    } else if u == seq!['E', 'X', 'I', 'T'] {
        Some(Command::EXIT)
    } else {
        None
    }
}

/// A word is a command when its upper-case form is a keyword, else an identifier.
pub open spec fn word_token(w: Seq<char>) -> TokenModel {
    match keyword(upper_of(w)) {
        Some(c) => TokenModel::Command(c),
        None => TokenModel::AlphaNumeric(w),
    }
}

/// The token read from position `i` of `s`, and the position after it.
pub open spec fn lex_step(s: Seq<char>, i: int) -> (Option<TokenModel>, int) {
    let j = skip_ws(s, i);
    if j >= s.len() {
        (None, j)
    } else if char_is_alphabetic(s[j]) {
        let e = run_end(s, j, false);
        (Some(word_token(s.subrange(j, e))), e)
    } else if char_is_numeric(s[j]) {
        let e = run_end(s, j, true);
        (Some(TokenModel::Number(number_value(s.subrange(j, e)))), e)
    } else {
        (Some(TokenModel::SpecialChar(s[j])), j + 1)
    }
}

/// The token read from position `i` of `s` is a run of digits that does not parse as a
/// `u64` (it is then read as zero).
pub open spec fn step_number_failed(s: Seq<char>, i: int) -> bool {
    let j = skip_ws(s, i);
    &&& j < s.len()
    &&& !char_is_alphabetic(s[j])
    &&& char_is_numeric(s[j])
    &&& parsed_u64(s.subrange(j, run_end(s, j, true))) is None
}

/// The position reached after `k` tokens of `s`.
pub open spec fn lex_pos(s: Seq<char>, k: nat) -> int
    decreases k,
{
    if k == 0 {
        0
    } else {
        lex_step(s, lex_pos(s, (k - 1) as nat)).1
    }
}

/// Token number `k` (from 0) of the line `s`, if there is one.
pub open spec fn token_at(s: Seq<char>, k: nat) -> Option<TokenModel> {
    lex_step(s, lex_pos(s, k)).0
}

/// Splits one input line into tokens, one call of `next` at a time.
pub struct Lexer {
    input: String,
    cursor: usize,
    number_failed: bool,
}

impl Lexer {
    #[verifier::type_invariant]
    closed spec fn inv(&self) -> bool {
        self.cursor <= self.input@.len()
    }

    /// The characters of the line.
    pub closed spec fn text(&self) -> Seq<char> {
        self.input@
    }

    /// How many characters have been consumed.
    pub closed spec fn position(&self) -> int {
        self.cursor as int
    }

    /// Whether the last token read was a number that did not parse.
    pub closed spec fn number_failed(&self) -> bool {
        self.number_failed
    }

    /// Whether the last token read was a run of digits that did not parse as a `u64`
    /// and was read as zero.
    pub fn last_number_failed(&self) -> (r: bool)
        ensures
            r == self.number_failed(),
    {
        self.number_failed
    }

    /// A lexer at the start of `input`.
    pub fn new(input: String) -> (r: Lexer)
        ensures
            r.text() == input@,
            r.position() == 0,
            !r.number_failed(),
    {
        Lexer { input, cursor: 0, number_failed: false }
    }

    /// Moves the cursor past whitespace; `chars` are the characters of the line.
    pub fn trim_leading_spaces(&mut self, chars: &Vec<char>)
        requires
            chars@ == old(self).text(),
        ensures
            final(self).text() == old(self).text(),
            final(self).position() == skip_ws(chars@, old(self).position()),
            final(self).number_failed() == old(self).number_failed(),
            0 <= final(self).position() <= final(self).text().len(),
    {
        proof {
            use_type_invariant(&*self);
        }
        while self.cursor < chars.len() && is_whitespace(chars[self.cursor])
            invariant
                chars@ == self.text(),
                self.text() == old(self).text(),
                self.number_failed == old(self).number_failed(),
                self.cursor <= chars.len(),
                skip_ws(chars@, self.cursor as int) == skip_ws(chars@, old(self).position()),
            decreases chars.len() - self.cursor,
        {
            self.cursor = self.cursor + 1;
        }
    }

    /// Consumes the run that starts at the cursor and returns its text.
    fn extract_token(&mut self, chars: &Vec<char>, digits: bool) -> (r: String)
        requires
            chars@ == old(self).text(),
        ensures
            final(self).text() == old(self).text(),
            final(self).number_failed() == old(self).number_failed(),
            final(self).position() == run_end(chars@, old(self).position(), digits),
            0 <= final(self).position() <= final(self).text().len(),
            r@ == chars@.subrange(old(self).position(), final(self).position()),
    {
        proof {
            use_type_invariant(&*self);
        }
        let start = self.cursor;
        let mut end = self.cursor;
        let mut run: Vec<char> = Vec::new();
        while end < chars.len() && in_run_char(chars[end], digits)
            invariant
                start <= end <= chars.len(),
                run_end(chars@, end as int, digits) == run_end(chars@, start as int, digits),
                run@ == chars@.subrange(start as int, end as int),
            decreases chars.len() - end,
        {
            run.push(chars[end]);
            end = end + 1;
            assert(run@ =~= chars@.subrange(start as int, end as int));
        }
        let token = string_of(&run);
        self.cursor = end;
        token
    }

    /// The next token of the line, or `None` once only whitespace is left.
    pub fn next(&mut self) -> (r: Option<Token>)
        ensures
            final(self).text() == old(self).text(),
            token_view(r) == lex_step(old(self).text(), old(self).position()).0,
            final(self).position() == lex_step(old(self).text(), old(self).position()).1,
            final(self).number_failed() == step_number_failed(
                old(self).text(),
                old(self).position(),
            ),
            0 <= final(self).position() <= final(self).text().len(),
    {
        let chars = chars_of(self.input.as_str());
        self.trim_leading_spaces(&chars);
        self.number_failed = false;
        let r = if self.cursor >= chars.len() {
            None
        } else {
            let c = chars[self.cursor];
            if is_alphabetic(c) {
                let token = self.extract_token(&chars, false);
                let upper = uppercase(token.as_str());
                match keyword_of(upper.as_str()) {
                    Some(command) => Some(Token::Command(command)),
                    None => Some(Token::AlphaNumeric(token)),
                }
            } else if is_numeric(c) {
                let digits = self.extract_token(&chars, true);
                let value = match parse_u64(digits.as_str()) {
                    Some(v) => v,
                    None => {
                        self.number_failed = true;
                        0
                    },
                };
                Some(Token::Number(value))
            } else {
                self.cursor = self.cursor + 1;
                Some(Token::SpecialChar(c))
            }
        };
        proof {
            use_type_invariant(&*self);
        }
        r
    }
}

fn in_run_char(c: char, digits: bool) -> (r: bool)
    ensures
        r == in_run(c, digits),
{
    if digits {
        is_numeric(c)
    } else {
        is_alphanumeric(c)
    }
}

/// Whether the two character vectors are equal.
fn same_chars(a: &Vec<char>, b: &Vec<char>) -> (r: bool)
    ensures
        r == (a@ == b@),
{
    if a.len() != b.len() {
        return false;
    }
    let mut i: usize = 0;
    while i < a.len()
        invariant
            a.len() == b.len(),
            i <= a.len(),
            forall|k: int| 0 <= k < i ==> a@[k] == b@[k],
        decreases a.len() - i,
    {
        if a[i] != b[i] {
            return false;
        }
        i = i + 1;
    }
    assert(a@ =~= b@);
    true
}

/// The command that an upper-cased word names, if any.
pub fn keyword_of(upper: &str) -> (r: Option<Command>)
    ensures
        r == keyword(upper@),
{
    let chars = chars_of(upper);
    let insert: Vec<char> = vec!['I', 'N', 'S', 'E', 'R', 'T'];
    let select: Vec<char> = vec!['S', 'E', 'L', 'E', 'C', 'T'];
    let exit: Vec<char> = vec!['E', 'X', 'I', 'T'];
    assert(insert@ =~= seq!['I', 'N', 'S', 'E', 'R', 'T']);
    assert(select@ =~= seq!['S', 'E', 'L', 'E', 'C', 'T']);
    assert(exit@ =~= seq!['E', 'X', 'I', 'T']);
    if same_chars(&chars, &insert) {
        Some(Command::INSERT)
    } else if same_chars(&chars, &select) {
        Some(Command::SELECT)
    } else if same_chars(&chars, &exit) {
        Some(Command::EXIT)
    } else {
        None
    }
}

/// Relies on `char::is_whitespace`.
#[verifier::external_body]
fn is_whitespace(c: char) -> (r: bool)
    ensures
        r == char_is_whitespace(c),
{
    c.is_whitespace()
}

/// Relies on `char::is_alphabetic`.
#[verifier::external_body]
fn is_alphabetic(c: char) -> (r: bool)
    ensures
        r == char_is_alphabetic(c),
{
    c.is_alphabetic()
}

/// Relies on `char::is_numeric`.
#[verifier::external_body]
fn is_numeric(c: char) -> (r: bool)
    ensures
        r == char_is_numeric(c),
{
    c.is_numeric()
}

/// Relies on `char::is_alphanumeric`, documented as `is_alphabetic() || is_numeric()`.
#[verifier::external_body]
fn is_alphanumeric(c: char) -> (r: bool)
    ensures
        r == (char_is_alphabetic(c) || char_is_numeric(c)),
{
    c.is_alphanumeric()
}

/// The characters of `s`, in order.
fn chars_of(s: &str) -> (r: Vec<char>)
    ensures
        r@ == s@,
{
    broadcast use vstd::string::group_string_axioms;

    let mut it = s.chars();
    let mut r: Vec<char> = Vec::new();
    loop
        invariant
            r@ + it.remaining() == s@,
            it.decrease() is Some,
        decreases it.decrease()->0,
    {
        match it.next() {
            Some(c) => {
                r.push(c);
            },
            None => {
                assert(r@ =~= s@);
                return r;
            },
        }
    }
}

/// Relies on collecting characters into a `String`: it holds them in order.
#[verifier::external_body]
fn string_of(chars: &Vec<char>) -> (r: String)
    ensures
        r@ == chars@,
{
    chars.iter().collect()
}

/// Relies on `str::to_uppercase`: the result depends on the characters alone.
#[verifier::external_body]
fn uppercase(s: &str) -> (r: String)
    ensures
        r@ == upper_of(s@),
{
    s.to_uppercase()
}

/// Relies on `str::parse::<u64>`: an optional `+` and decimal digits whose value fits.
#[verifier::external_body]
fn parse_u64(s: &str) -> (r: Option<u64>)
    ensures
        r == parsed_u64(s@),
{
    s.parse::<u64>().ok()
}

} // verus!
