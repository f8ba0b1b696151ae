//! Text helpers shared by the generators: comparing names, raw identifiers,
//! decimal rendering of integers and case conversion.
use convert_case::{Case, Casing};
use vstd::prelude::*;

verus! {

/// Whether `s` holds exactly the characters of `k`.
pub fn same_text(s: &String, k: &str) -> (r: bool)
    ensures
        r == (s@ == k@),
{
    let t = String::from_str(k);
    s.eq(&t)
}

/// Whether two strings hold the same characters.
pub fn same_string(a: &String, b: &String) -> (r: bool)
    ensures
        r == (a@ == b@),
{
    a.eq(b)
}

pub fn dup_opt_string(o: &Option<String>) -> (r: Option<String>)
    ensures
        r == *o,
{
    match o {
        Some(s) => Some(s.clone()),
        None => None,
    }
}

/// An identifier with every leading `r#` removed.
pub open spec fn unraw_of(s: Seq<char>) -> Seq<char>
    decreases s.len(),
{
    if s.len() >= 2 && s[0] == 'r' && s[1] == '#' {
        unraw_of(s.subrange(2, s.len() as int))
    } else {
        s
    }
}

/// Strips the raw-identifier marker `r#` from the front of a name.
pub fn unraw(s: &String) -> (r: String)
    ensures
        r@ == unraw_of(s@),
{
    let st = s.as_str();
    let n = st.unicode_len();
    let mut i: usize = 0;
    assert(s@.subrange(0, n as int) =~= s@);
    while i < n && n - i >= 2 && st.get_char(i) == 'r' && st.get_char(i + 1) == '#'
        invariant
            i <= n,
            n == s@.len(),
            st@ == s@,
            unraw_of(s@.subrange(i as int, n as int)) == unraw_of(s@),
        decreases n - i,
    {
        let ghost rest = s@.subrange(i as int, n as int);
        assert(rest.subrange(2, rest.len() as int) =~= s@.subrange(i + 2, n as int));
        i = i + 2;
    }
    String::from_str(st.substring_char(i, n))
}

pub open spec fn digit_char(d: nat) -> char {
    if d == 0 {
        '0'
    } else if d == 1 {
        '1'
    } else if d == 2 {
        '2'
    } else if d == 3 {
        '3'
    } else if d == 4 {
        '4'
    } else if d == 5 {
        '5'
    } else if d == 6 {
        '6'
    } else if d == 7 {
        '7'
    } else if d == 8 {
        '8'
    } else {
        '9'
    }
}

/// The decimal digits of `n`, most significant first, without leading zeros.
pub open spec fn digits_of(n: nat) -> Seq<char>
    decreases n,
{
    if n < 10 {
        seq![digit_char(n)]
    } else {
        digits_of(n / 10) + seq![digit_char(n % 10)]
    }
}

/// The decimal text of an integer, with a leading `-` when it is negative.
pub open spec fn decimal_of(n: int) -> Seq<char> {
    if n < 0 {
        seq!['-'] + digits_of((-n) as nat)
    } else {
        digits_of(n as nat)
    }
}

fn digit_str(d: u128) -> (r: &'static str)
    requires
        d < 10,
    ensures
        r@ == seq![digit_char(d as nat)],
{
    proof {
        reveal_strlit("0");
        reveal_strlit("1");
        reveal_strlit("2");
        reveal_strlit("3");
        reveal_strlit("4");
        reveal_strlit("5");
        reveal_strlit("6");
        reveal_strlit("7");
        reveal_strlit("8");
        reveal_strlit("9");
    }
    if d == 0 {
        "0"
    } else if d == 1 {
        "1"
    } else if d == 2 {
        "2"
    } else if d == 3 {
        "3"
    } else if d == 4 {
        "4"
    } else if d == 5 {
        "5"
    } else if d == 6 {
        "6"
    } else if d == 7 {
        "7"
    } else if d == 8 {
        "8"
    } else {
        "9"
    }
}

fn push_digits(out: &mut String, n: u128)
    ensures
        final(out)@ == old(out)@ + digits_of(n as nat),
    decreases n,
{
    if n >= 10 {
        push_digits(out, n / 10);
    }
    out.append(digit_str(n % 10));
    assert(final(out)@ =~= old(out)@ + digits_of(n as nat));
}

/// Renders an integer in decimal, as `to_string` does.
pub fn decimal(v: i128) -> (r: String)
    ensures
        r@ == decimal_of(v as int),
{
    let mut out = String::new();
    if v < 0 {
        proof {
            reveal_strlit("-");
        }
        out.append("-");
        let m: u128 = (-(v + 1)) as u128 + 1;
        push_digits(&mut out, m);
    } else {
        push_digits(&mut out, v as u128);
    }
    assert(out@ =~= decimal_of(v as int));
    out
}

/// A rule for rewriting a name's case, as named in a `rename_all` option.
#[derive(Clone, Copy, Debug, PartialEq, Eq)]
pub enum CaseRule {
    /// `lowercase`
    Lower,
    /// `UPPERCASE`
    Upper,
    /// `PascalCase`
    Pascal,
    /// `camelCase`
    Camel,
    /// `snake_case`
    Snake,
    /// `SCREAMING_SNAKE_CASE`
    ScreamingSnake,
    /// `kebab-case`
    Kebab,
    /// `SCREAMING-KEBAB-CASE`
    ScreamingKebab,
}

impl CaseRule {
    /// The rule that a `rename_all` text names, if it names one.
    pub open spec fn spec_from_name(s: Seq<char>) -> Option<CaseRule> {
        if s == "lowercase"@ {
            Some(CaseRule::Lower)
        } else if s == "UPPERCASE"@ {
            Some(CaseRule::Upper)
        } else if s == "PascalCase"@ {
            Some(CaseRule::Pascal)
        } else if s == "camelCase"@ {
            Some(CaseRule::Camel)
        } else if s == "snake_case"@ {
            Some(CaseRule::Snake)
        } else if s == "SCREAMING_SNAKE_CASE"@ {
            Some(CaseRule::ScreamingSnake)
        } else if s == "kebab-case"@ {
            Some(CaseRule::Kebab)
        } else if s == "SCREAMING-KEBAB-CASE"@ {
            Some(CaseRule::ScreamingKebab)
        } else {
            None
        }
    }

    pub fn from_name(s: &String) -> (r: Option<CaseRule>)
        ensures
            r == CaseRule::spec_from_name(s@),
    {
        if same_text(s, "lowercase") {
            Some(CaseRule::Lower)
        } else if same_text(s, "UPPERCASE") {
            Some(CaseRule::Upper)
        } else if same_text(s, "PascalCase") {
            Some(CaseRule::Pascal)
        } else if same_text(s, "camelCase") {
            Some(CaseRule::Camel)
        } else if same_text(s, "snake_case") {
            Some(CaseRule::Snake)
        } else if same_text(s, "SCREAMING_SNAKE_CASE") {
            Some(CaseRule::ScreamingSnake)
        } else if same_text(s, "kebab-case") {
            Some(CaseRule::Kebab)
        } else if same_text(s, "SCREAMING-KEBAB-CASE") {
            Some(CaseRule::ScreamingKebab)
        } else {
            None
        }
    }
}

/// What a name becomes under a case rule.
pub uninterp spec fn cased(rule: CaseRule, s: Seq<char>) -> Seq<char>;

/// Relies on convert_case's `Casing::to_case`, whose result depends on the
/// case and the characters of the text alone.
#[verifier::external_body]
pub(crate) fn to_case(s: &String, rule: CaseRule) -> (r: String)
    ensures
        r@ == cased(rule, s@),
{
    let case = match rule {
        CaseRule::Lower => Case::Lower,
        CaseRule::Upper => Case::Upper,
        CaseRule::Pascal => Case::Pascal,
        CaseRule::Camel => Case::Camel,
        CaseRule::Snake => Case::Snake,
        CaseRule::ScreamingSnake => Case::UpperSnake,
        CaseRule::Kebab => Case::Kebab,
        CaseRule::ScreamingKebab => Case::UpperKebab,
    };
    s.to_case(case)
}

} // verus!
