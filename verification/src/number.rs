//! Numeric tokens: the decimal floating-point literals that a command line may hold.
//!
//! A token is a number when it has this form, letters in either case:
//!
//! ```text
//! Float  ::= Sign? ( 'inf' | 'infinity' | 'nan' | Number )
//! Number ::= ( Digit+ | Digit+ '.' Digit* | Digit* '.' Digit+ ) Exp?
//! Exp    ::= 'e' Sign? Digit+
//! Sign   ::= [+-]
//! Digit  ::= [0-9]
//! ```
//!
//! The library decides whether a token is a number and carries its text; the
//! binary value is the caller's to compute.

use vstd::prelude::*;
use crate::token::chars_of;

verus! {

pub open spec fn is_digit(c: char) -> bool {
    '0' as u32 <= c as u32 <= '9' as u32
}

pub open spec fn is_sign(c: char) -> bool {
    c == '+' || c == '-'
}

/// `c`, or its lower-case form where `c` is an ASCII capital.
pub open spec fn lower(c: char) -> u32 {
    if 'A' as u32 <= c as u32 <= 'Z' as u32 {
        (c as u32 + 32) as u32
    } else {
        c as u32
    }
}

/// Whether `s` is `word` but for the case of its letters; `word` is in lower case.
pub open spec fn is_word(s: Seq<char>, word: Seq<char>) -> bool {
    &&& s.len() == word.len()
    &&& forall|i: int| 0 <= i < s.len() ==> lower(#[trigger] s[i]) == word[i] as u32
}

/// The number of digits that `s` starts with.
pub open spec fn digit_run(s: Seq<char>) -> nat
    decreases s.len(),
{
    if s.len() == 0 || !is_digit(s[0]) {
        0
    } else {
        1 + digit_run(s.drop_first())
    }
}

/// `Exp`: an `e`, an optional sign, and one digit or more, with nothing after them.
pub open spec fn is_exponent(s: Seq<char>) -> bool {
    &&& s.len() >= 2
    &&& lower(s[0]) == 'e' as u32
    &&& {
        let digits = if is_sign(s[1]) {
            s.skip(2)
        } else {
            s.skip(1)
        };
        digits.len() > 0 && digit_run(digits) == digits.len()
    }
}

/// `Number`: digits with an optional point among them, at least one digit in
/// all, and an optional exponent.
pub open spec fn is_decimal(s: Seq<char>) -> bool {
    let whole = digit_run(s) as int;
    let pointed = whole < s.len() && s[whole] == '.';
    let fraction = if pointed {
        digit_run(s.skip(whole + 1)) as int
    } else {
        0
    };
    let mantissa = if pointed {
        whole + 1 + fraction
    } else {
        whole
    };
    &&& whole + fraction > 0
    &&& (mantissa == s.len() || is_exponent(s.skip(mantissa)))
}

/// `s` without the sign that it may start with.
pub open spec fn unsigned_part(s: Seq<char>) -> Seq<char> {
    if s.len() > 0 && is_sign(s[0]) {
        s.skip(1)
    } else {
        s
    }
}

/// `Float`: whether a token is a number.
pub open spec fn is_number(s: Seq<char>) -> bool {
    let body = unsigned_part(s);
    ||| is_word(body, seq!['i', 'n', 'f'])
    ||| is_word(body, seq!['i', 'n', 'f', 'i', 'n', 'i', 't', 'y'])
    ||| is_word(body, seq!['n', 'a', 'n'])
    ||| is_decimal(body)
}

fn is_digit_char(c: char) -> (r: bool)
    ensures
        r == is_digit(c),
{
    let n: u32 = c as u32;
    '0' as u32 <= n && n <= '9' as u32
}

fn lower_char(c: char) -> (r: u32)
    ensures
        r == lower(c),
{
    let n: u32 = c as u32;
    if 'A' as u32 <= n && n <= 'Z' as u32 {
        n + 32
    } else {
        n
    }
}

/// Counts the digits of `s` from `from` on.
fn count_digits(s: &Vec<char>, from: usize) -> (n: usize)
    requires
        from <= s.len(),
    ensures
        n == digit_run(s@.skip(from as int)),
        from + n <= s.len(),
{
    let mut j: usize = from;
    while j < s.len() && is_digit_char(s[j])
        invariant
            from <= j <= s.len(),
            digit_run(s@.skip(from as int)) == (j - from) + digit_run(s@.skip(j as int)),
        decreases s.len() - j,
    {
        assert(s@.skip(j as int).drop_first() =~= s@.skip(j + 1));
        j += 1;
    }
    j - from
}

/// Whether `s` from `from` on is `word` but for the case of its letters.
fn matches_word(s: &Vec<char>, from: usize, word: &Vec<char>) -> (r: bool)
    requires
        from <= s.len(),
    ensures
        r == is_word(s@.skip(from as int), word@),
{
    if s.len() - from != word.len() {
        return false;
    }
    let ghost rest = s@.skip(from as int);
    let mut i: usize = 0;
    while i < word.len()
        invariant
            from <= s.len(),
            s.len() - from == word.len(),
            rest == s@.skip(from as int),
            i <= word.len(),
            forall|k: int| 0 <= k < i ==> lower(#[trigger] rest[k]) == word@[k] as u32,
        decreases word.len() - i,
    {
        if lower_char(s[from + i]) != word[i] as u32 {
            assert(lower(rest[i as int]) != word@[i as int] as u32);
            return false;
        }
        i += 1;
    }
    true
}

/// Whether `s` from `from` on is an exponent.
fn matches_exponent(s: &Vec<char>, from: usize) -> (r: bool)
    requires
        from <= s.len(),
    ensures
        r == is_exponent(s@.skip(from as int)),
{
    let ghost rest = s@.skip(from as int);
    if s.len() - from < 2 {
        return false;
    }
    if lower_char(s[from]) != 'e' as u32 {
        return false;
    }
    let start: usize = if s[from + 1] == '+' || s[from + 1] == '-' {
        from + 2
    } else {
        from + 1
    };
    proof {
        assert(rest.skip(start - from) =~= s@.skip(start as int));
    }
    let digits = count_digits(s, start);
    start < s.len() && start + digits == s.len()
}

/// Whether `s` from `from` on is a decimal number.
fn matches_decimal(s: &Vec<char>, from: usize) -> (r: bool)
    requires
        from <= s.len(),
    ensures
        r == is_decimal(s@.skip(from as int)),
{
    let ghost rest = s@.skip(from as int);
    let whole = count_digits(s, from);
    let point: usize = from + whole;
    let pointed = point < s.len() && s[point] == '.';
    let fraction: usize = if pointed {
        proof {
            assert(rest.skip(whole + 1) =~= s@.skip(point + 1));
        }
        count_digits(s, point + 1)
    } else {
        0
    };
    let end: usize = if pointed {
        point + 1 + fraction
    } else {
        point
    };
    proof {
        assert(rest.skip(end - from) =~= s@.skip(end as int));
    }
    if whole + fraction == 0 {
        return false;
    }
    end == s.len() || matches_exponent(s, end)
}

/// Whether `token` is a number.
pub fn is_number_token(token: &str) -> (r: bool)
    ensures
        r == is_number(token@),
{
    let s = chars_of(token);
    let from: usize = if s.len() > 0 && (s[0] == '+' || s[0] == '-') {
        1
    } else {
        0
    };
    proof {
        assert(unsigned_part(s@) =~= s@.skip(from as int));
    }
    let inf: Vec<char> = vec!['i', 'n', 'f'];
    let infinity: Vec<char> = vec!['i', 'n', 'f', 'i', 'n', 'i', 't', 'y'];
    let nan: Vec<char> = vec!['n', 'a', 'n'];
    proof {
        assert(inf@ =~= seq!['i', 'n', 'f']);
        assert(infinity@ =~= seq!['i', 'n', 'f', 'i', 'n', 'i', 't', 'y']);
        assert(nan@ =~= seq!['n', 'a', 'n']);
    }
    matches_word(&s, from, &inf) || matches_word(&s, from, &infinity) || matches_word(
        &s,
        from,
        &nan,
    ) || matches_decimal(&s, from)
}

/// A numeric token: the text of a number, as it stood in the line.
pub struct Number {
    text: String,
}

impl View for Number {
    type V = Seq<char>;

    closed spec fn view(&self) -> Seq<char> {
        self.text@
    }
}

/// The texts of a vector of numbers.
pub open spec fn number_texts(v: Seq<Number>) -> Seq<Seq<char>> {
    v.map_values(|n: Number| n@)
}

impl Number {
    #[verifier::type_invariant]
    spec fn well_formed(self) -> bool {
        is_number(self.text@)
    }

    /// Makes a number of `token` where it is one, and hands `token` back where it is not.
    pub fn from_token(token: String) -> (r: Result<Number, String>)
        ensures
            match r {
                Ok(n) => is_number(token@) && n@ == token@,
                Err(t) => !is_number(token@) && t == token,
            },
    {
        if is_number_token(token.as_str()) {
            Ok(Number { text: token })
        } else {
            Err(token)
        }
    }

    /// Makes a number of `token` where it is one.
    pub fn parse(token: &str) -> (r: Option<Number>)
        ensures
            r is Some <==> is_number(token@),
            r is Some ==> r->0@ == token@,
    {
        match Number::from_token(token.to_owned()) {
            Ok(n) => Some(n),
            Err(_) => None,
        }
    }

    /// The text of the number.
    pub fn as_str(&self) -> (r: &str)
        ensures
            r@ == self@,
            is_number(r@),
    {
        proof {
            use_type_invariant(self);
        }
        self.text.as_str()
    }
}

} // verus!
