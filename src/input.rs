//! What text a hole of each kind accepts.
use vstd::prelude::*;
use crate::catalog::HoleType;
use crate::text::chars_of;

verus! {

pub open spec fn is_digit(c: char) -> bool {
    '0' <= c && c <= '9'
}

pub open spec fn is_sign(c: char) -> bool {
    c == '+' || c == '-'
}

/// The first index, from `i` on, that does not hold a digit.
pub open spec fn digits_end(s: Seq<char>, i: int) -> int
    decreases s.len() - i,
{
    if i < 0 || i >= s.len() || !is_digit(s[i]) {
        i
    } else {
        digits_end(s, i + 1)
    }
}

/// `s` from index `i` on spells `word` (given in lower case), ignoring the
/// case of ASCII letters.
pub open spec fn spells_from(s: Seq<char>, i: int, word: Seq<char>) -> bool {
    &&& 0 <= i
    &&& s.len() == i + word.len()
    &&& forall|k: int| 0 <= k < word.len() ==> same_letter(#[trigger] s[i + k], word[k])
}

/// `c` is the lower-case ASCII letter `l` or its upper-case form.
pub open spec fn same_letter(c: char, l: char) -> bool {
    c == l || (('a' <= l && l <= 'z') && c as u32 + 32 == l as u32)
}

/// The exponent part `e`/`E`, an optional sign and at least one digit,
/// running from `i` to the end.
pub open spec fn exponent_from(s: Seq<char>, i: int) -> bool {
    &&& 0 <= i < s.len()
    &&& (s[i] == 'e' || s[i] == 'E')
    &&& {
        let j = if i + 1 < s.len() && is_sign(s[i + 1]) { i + 2 } else { i + 1 };
        j < s.len() && digits_end(s, j) == s.len()
    }
}

/// A decimal number from `i` to the end: digits, an optional point followed
/// by digits, with at least one digit in all, and an optional exponent.
pub open spec fn decimal_from(s: Seq<char>, i: int) -> bool {
    let a = digits_end(s, i);
    let b = if a < s.len() && s[a] == '.' { digits_end(s, a + 1) } else { a };
    let frac = if a < s.len() && s[a] == '.' { b - (a + 1) } else { 0 };
    &&& (a - i) + frac > 0
    &&& (b == s.len() || exponent_from(s, b))
}

/// Text in the grammar that the standard library documents for parsing
/// floating-point numbers: an optional sign, then `inf`, `infinity`, `nan`
/// (in any case) or a decimal number. Every text of digits, with an optional
/// leading `+`, is in it too.
pub open spec fn number_text(s: Seq<char>) -> bool {
    let i: int = if s.len() > 0 && is_sign(s[0]) { 1 } else { 0 };
    ||| spells_from(s, i, seq!['i', 'n', 'f'])
    ||| spells_from(s, i, seq!['i', 'n', 'f', 'i', 'n', 'i', 't', 'y'])
    ||| spells_from(s, i, seq!['n', 'a', 'n'])
    ||| decimal_from(s, i)
}

/// Characters with the Unicode `White_Space` property.
pub open spec fn is_white_space(c: char) -> bool {
    let u = c as u32;
    ||| (0x09 <= u && u <= 0x0D)
    ||| u == 0x20
    ||| u == 0x85
    ||| u == 0xA0
    ||| u == 0x1680
    ||| (0x2000 <= u && u <= 0x200A)
    ||| u == 0x2028
    ||| u == 0x2029
    ||| u == 0x202F
    ||| u == 0x205F
    ||| u == 0x3000
}

/// A name that may stand for a variable: a letter or `_` first, and no white
/// space.
pub open spec fn variable_text(s: Seq<char>) -> bool {
    &&& s.len() > 0
    &&& (('a' <= s[0] && s[0] <= 'z') || ('A' <= s[0] && s[0] <= 'Z') || s[0] == '_')
    &&& forall|k: int| 0 <= k < s.len() ==> !is_white_space(#[trigger] s[k])
}

pub open spec fn bool_text(s: Seq<char>) -> bool {
    s == seq!['t', 'r', 'u', 'e'] || s == seq!['f', 'a', 'l', 's', 'e']
}

pub open spec fn comparitor_text(s: Seq<char>) -> bool {
    s == seq!['>'] || s == seq!['<'] || s == seq!['=', '='] || s == seq!['!', '=']
}

impl HoleType {
    /// Whether a hole of this kind accepts `s`: never an empty text; for
    /// the kinds with a form, only text of that form; any other text
    /// otherwise.
    pub open spec fn accepts(&self, s: Seq<char>) -> bool {
        s.len() > 0 && match self {
            HoleType::Number => number_text(s),
            HoleType::Bool => bool_text(s),
            HoleType::Comparitor => comparitor_text(s),
            HoleType::Variable => variable_text(s),
            _ => true,
        }
    }

    /// The most specific kind that accepts `s`, tried in the order number,
    /// bool, comparitor, variable; `Any` where none does.
    pub open spec fn derived_from(s: Seq<char>) -> HoleType {
        if HoleType::Number.accepts(s) {
            HoleType::Number
        } else if HoleType::Bool.accepts(s) {
            HoleType::Bool
        } else if HoleType::Comparitor.accepts(s) {
            HoleType::Comparitor
        } else if HoleType::Variable.accepts(s) {
            HoleType::Variable
        } else {
            HoleType::Any
        }
    }

    pub fn valid_input(&self, value: &str) -> (r: bool)
        ensures
            r == self.accepts(value@),
    {
        let s = chars_of(value);
        if s.len() == 0 {
            return false;
        }
        match self {
            HoleType::Number => is_number(&s),
            HoleType::Bool => is_bool(&s),
            HoleType::Comparitor => is_comparitor(&s),
            HoleType::Variable => is_variable(&s),
            _ => true,
        }
    }

    pub fn get_derived_type(value: &str) -> (r: HoleType)
        ensures
            r == Self::derived_from(value@),
    {
        if HoleType::Number.valid_input(value) {
            HoleType::Number
        } else if HoleType::Bool.valid_input(value) {
            HoleType::Bool
        } else if HoleType::Comparitor.valid_input(value) {
            HoleType::Comparitor
        } else if HoleType::Variable.valid_input(value) {
            HoleType::Variable
        } else {
            HoleType::Any
        }
    }
}

fn is_digit_char(c: char) -> (r: bool)
    ensures
        r == is_digit(c),
{
    '0' <= c && c <= '9'
}

fn skip_digits(s: &Vec<char>, i: usize) -> (r: usize)
    requires
        i <= s@.len(),
    ensures
        r as int == digits_end(s@, i as int),
        i <= r <= s@.len(),
{
    let mut k = i;
    while k < s.len() && is_digit_char(s[k])
        invariant
            i <= k <= s@.len(),
            digits_end(s@, i as int) == digits_end(s@, k as int),
        decreases s.len() - k,
    {
        k = k + 1;
    }
    k
}

fn same_letter_exec(c: char, l: char) -> (r: bool)
    ensures
        r == same_letter(c, l),
{
    c == l || ('a' <= l && l <= 'z' && (c as u32) + 32 == l as u32)
}

fn spells(s: &Vec<char>, i: usize, word: &Vec<char>) -> (r: bool)
    ensures
        r == spells_from(s@, i as int, word@),
{
    if i > s.len() || s.len() - i != word.len() {
        return false;
    }
    let n = s.len();
    let mut k: usize = 0;
    while k < word.len()
        invariant
            n == s@.len(),
            s@.len() == i + word@.len(),
            k <= word@.len(),
            forall|m: int| 0 <= m < k ==> same_letter(#[trigger] s@[i + m], word@[m]),
        decreases word.len() - k,
    {
        if !same_letter_exec(s[i + k], word[k]) {
            return false;
        }
        k = k + 1;
    }
    true
}

fn exponent(s: &Vec<char>, i: usize) -> (r: bool)
    requires
        i <= s@.len(),
    ensures
        r == exponent_from(s@, i as int),
{
    if i >= s.len() || !(s[i] == 'e' || s[i] == 'E') {
        return false;
    }
    let j = if i + 1 < s.len() && (s[i + 1] == '+' || s[i + 1] == '-') { i + 2 } else { i + 1 };
    j < s.len() && skip_digits(s, j) == s.len()
}

fn decimal_at(s: &Vec<char>, i: usize) -> (r: bool)
    requires
        i <= s@.len(),
    ensures
        r == decimal_from(s@, i as int),
{
    let a = skip_digits(s, i);
    let point = a < s.len() && s[a] == '.';
    let b = if point { skip_digits(s, a + 1) } else { a };
    let frac = if point { b - (a + 1) } else { 0 };
    (a - i) + frac > 0 && (b == s.len() || exponent(s, b))
}

fn is_number(s: &Vec<char>) -> (r: bool)
    ensures
        r == number_text(s@),
{
    let i: usize = if s.len() > 0 && (s[0] == '+' || s[0] == '-') { 1 } else { 0 };
    let inf = vec!['i', 'n', 'f'];
    let infinity = vec!['i', 'n', 'f', 'i', 'n', 'i', 't', 'y'];
    let nan = vec!['n', 'a', 'n'];
    assert(inf@ =~= seq!['i', 'n', 'f']);
    assert(infinity@ =~= seq!['i', 'n', 'f', 'i', 'n', 'i', 't', 'y']);
    assert(nan@ =~= seq!['n', 'a', 'n']);
    spells(s, i, &inf) || spells(s, i, &infinity) || spells(s, i, &nan) || decimal_at(s, i)
}

fn is_white_space_char(c: char) -> (r: bool)
    ensures
        r == is_white_space(c),
{
    let u = c as u32;
    (0x09 <= u && u <= 0x0D) || u == 0x20 || u == 0x85 || u == 0xA0 || u == 0x1680
        || (0x2000 <= u && u <= 0x200A) || u == 0x2028 || u == 0x2029 || u == 0x202F
        || u == 0x205F || u == 0x3000
}

fn is_variable(s: &Vec<char>) -> (r: bool)
    ensures
        r == variable_text(s@),
{
    if s.len() == 0 {
        return false;
    }
    let c = s[0];
    if !(('a' <= c && c <= 'z') || ('A' <= c && c <= 'Z') || c == '_') {
        return false;
    }
    let mut k: usize = 0;
    while k < s.len()
        invariant
            k <= s@.len(),
            forall|m: int| 0 <= m < k ==> !is_white_space(#[trigger] s@[m]),
        decreases s.len() - k,
    {
        if is_white_space_char(s[k]) {
            return false;
        }
        k = k + 1;
    }
    true
}

fn is_bool(s: &Vec<char>) -> (r: bool)
    ensures
        r == bool_text(s@),
{
    let t = s.len() == 4 && s[0] == 't' && s[1] == 'r' && s[2] == 'u' && s[3] == 'e';
    let f = s.len() == 5 && s[0] == 'f' && s[1] == 'a' && s[2] == 'l' && s[3] == 's' && s[4] == 'e';
    proof {
        if t {
            assert(s@ =~= seq!['t', 'r', 'u', 'e']);
        }
        if f {
            assert(s@ =~= seq!['f', 'a', 'l', 's', 'e']);
        }
        if s@ == seq!['t', 'r', 'u', 'e'] {
            assert(s@[0] == 't' && s@[1] == 'r' && s@[2] == 'u' && s@[3] == 'e');
        }
        if s@ == seq!['f', 'a', 'l', 's', 'e'] {
            assert(s@[0] == 'f' && s@[1] == 'a' && s@[2] == 'l' && s@[3] == 's' && s@[4] == 'e');
        }
    }
    t || f
}

fn is_comparitor(s: &Vec<char>) -> (r: bool)
    ensures
        r == comparitor_text(s@),
{
    let one = s.len() == 1 && (s[0] == '>' || s[0] == '<');
    let two = s.len() == 2 && (s[0] == '=' || s[0] == '!') && s[1] == '=';
    proof {
        if one {
            assert(s@ =~= seq!['>'] || s@ =~= seq!['<']);
        }
        if two {
            assert(s@ =~= seq!['=', '='] || s@ =~= seq!['!', '=']);
        }
        if s@ == seq!['>'] || s@ == seq!['<'] {
            assert(s@[0] == '>' || s@[0] == '<');
        }
        if s@ == seq!['=', '='] || s@ == seq!['!', '='] {
            assert((s@[0] == '=' || s@[0] == '!') && s@[1] == '=');
        }
    }
    one || two
}

} // verus!
