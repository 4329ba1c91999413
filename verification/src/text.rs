//! Text helpers: the calls into the pattern matcher and the case converter,
//! joining with a separator and decimal numerals.

use convert_case::Case;
use convert_case::Casing;
use crate::shape::has_line_break;
use crate::shape::keyword_groups;
use crate::shape::keyword_pattern;
use crate::shape::pair_groups;
use crate::shape::pair_pattern;
use regex::Regex;
use vstd::prelude::*;
use vstd::string::StringExecFns;

verus! {

/// The error of `regex::Regex::new`, carried through unopened.
#[verifier::external_type_specification]
#[verifier::external_body]
pub struct ExRegexError(regex::Error);

/// What `regex::Regex::captures` finds in `text` for the compiled `pattern`:
/// `None` where nothing matches, else one entry per capture group, the whole
/// match first, with `None` for a group that took no part in the match. What
/// it is for the two patterns of procedure names is stated where the call
/// is made.
pub uninterp spec fn regex_captures(pattern: Seq<char>, text: Seq<char>) -> Option<
    Seq<Option<Seq<char>>>,
>;

/// What `convert_case::Casing::to_case` makes of `text`, for the case
/// `UpperCamel` where `upper` holds and for `Camel` where it does not.
pub uninterp spec fn recased(text: Seq<char>, upper: bool) -> Seq<char>;

/// The capture groups of one match as plain sequences.
pub open spec fn groups_view(groups: Vec<Option<String>>) -> Seq<Option<Seq<char>>> {
    Seq::new(
        groups@.len(),
        |i: int|
            match groups@[i] {
                Some(s) => Some(s@),
                None => None,
            },
    )
}

/// The result of a search as plain sequences.
pub open spec fn found_view(found: Option<Vec<Option<String>>>) -> Option<
    Seq<Option<Seq<char>>>,
> {
    match found {
        Some(groups) => Some(groups_view(groups)),
        None => None,
    }
}

/// Compiles `pattern` with `regex::Regex::new` and searches `text` with
/// `regex::Regex::captures`, for one of the two patterns of procedure names.
/// Trusted: both patterns compile, and what the search finds is a function
/// of the pattern and the text alone, named `regex_captures`. In a text
/// without line break it is, by the engine's documented rules (the leftmost
/// match, `.` for any character but a line break, a greedy `*`, the first
/// alternative that fits), the split at the last framed keyword for the
/// keyword pattern, and for the pair pattern the split behind a leading
/// `get` or `set`, else at the last separator. Of a text with a line break
/// nothing is claimed but the name.
#[verifier::external_body]
pub(crate) fn captures(pattern: &str, text: &str) -> (r: Result<
    Option<Vec<Option<String>>>,
    regex::Error,
>)
    requires
        pattern@ == keyword_pattern() || pattern@ == pair_pattern(),
    ensures
        r is Ok,
        r matches Ok(found) ==> found_view(found) == regex_captures(pattern@, text@),
        r matches Ok(found) ==> pattern@ == keyword_pattern() && !has_line_break(text@)
            ==> found_view(found) == keyword_groups(text@),
        r matches Ok(found) ==> pattern@ == pair_pattern() && !has_line_break(text@)
            ==> found_view(found) == pair_groups(text@),
{
    let re = Regex::new(pattern)?;
    Ok(re.captures(text).map(|c| c.iter().map(|g| g.map(|m| m.as_str().to_string())).collect()))
}

/// Calls `convert_case::Casing::to_case` on `text`. Trusted: the result is a
/// function of the text and the chosen case alone, named `recased`.
#[verifier::external_body]
pub(crate) fn to_case(text: &str, upper: bool) -> (r: String)
    ensures
        r@ == recased(text@, upper),
{
    text.to_case(if upper { Case::UpperCamel } else { Case::Camel })
}

/// Whether a string holds exactly the text `b`.
pub fn same_text(a: &String, b: &str) -> (r: bool)
    ensures
        r == (a@ == b@),
{
    let other = String::from_str(b);
    *a == other
}

/// The texts of a list of strings.
pub open spec fn texts(parts: Vec<String>) -> Seq<Seq<char>> {
    Seq::new(parts@.len(), |i: int| parts@[i]@)
}

/// The parts in order, with `sep` between each two neighbours.
pub open spec fn joined(parts: Seq<Seq<char>>, sep: Seq<char>) -> Seq<char>
    decreases parts.len(),
{
    if parts.len() == 0 {
        Seq::empty()
    } else if parts.len() == 1 {
        parts[0]
    } else {
        joined(parts.drop_last(), sep) + sep + parts.last()
    }
}

/// Whether `part` stands somewhere in `whole`, unbroken.
pub open spec fn occurs_in(part: Seq<char>, whole: Seq<char>) -> bool {
    exists|i: int, j: int| 0 <= i <= j <= whole.len() && #[trigger] whole.subrange(i, j) == part
}

/// A text occurs in every text that is built around it.
pub proof fn lemma_occurs_between(before: Seq<char>, part: Seq<char>, after: Seq<char>)
    ensures
        occurs_in(part, before + part + after),
{
    let whole = before + part + after;
    assert(whole.subrange(before.len() as int, (before.len() + part.len()) as int) =~= part);
}

/// What occurs in a text occurs in every text that is built around that
/// text.
pub proof fn lemma_occurs_within(
    part: Seq<char>,
    before: Seq<char>,
    middle: Seq<char>,
    after: Seq<char>,
)
    requires
        occurs_in(part, middle),
    ensures
        occurs_in(part, before + middle + after),
{
    let (i, j) = choose|i: int, j: int|
        0 <= i <= j <= middle.len() && #[trigger] middle.subrange(i, j) == part;
    let whole = before + middle + after;
    assert(whole.subrange(before.len() + i, before.len() + j) =~= middle.subrange(i, j));
}

/// What occurs in a part of a text occurs in the text.
pub proof fn lemma_occurs_chain(part: Seq<char>, middle: Seq<char>, whole: Seq<char>)
    requires
        occurs_in(part, middle),
        occurs_in(middle, whole),
    ensures
        occurs_in(part, whole),
{
    let (i, j) = choose|i: int, j: int|
        0 <= i <= j <= whole.len() && #[trigger] whole.subrange(i, j) == middle;
    assert(whole =~= whole.subrange(0, i) + middle + whole.subrange(j, whole.len() as int));
    lemma_occurs_within(part, whole.subrange(0, i), middle, whole.subrange(j, whole.len() as int));
}

/// Every part occurs in the joined text.
pub proof fn lemma_part_occurs_in_joined(parts: Seq<Seq<char>>, sep: Seq<char>, k: int)
    requires
        0 <= k < parts.len(),
    ensures
        occurs_in(parts[k], joined(parts, sep)),
    decreases parts.len(),
{
    let empty = Seq::<char>::empty();
    if parts.len() == 1 {
        lemma_occurs_between(empty, parts[0], empty);
        assert(empty + parts[0] + empty =~= parts[0]);
    } else if k == parts.len() - 1 {
        lemma_occurs_between(joined(parts.drop_last(), sep) + sep, parts.last(), empty);
        assert(joined(parts.drop_last(), sep) + sep + parts.last() + empty =~= joined(parts, sep));
    } else {
        lemma_part_occurs_in_joined(parts.drop_last(), sep, k);
        lemma_occurs_within(parts[k], empty, joined(parts.drop_last(), sep), sep + parts.last());
        assert(empty + joined(parts.drop_last(), sep) + (sep + parts.last()) =~= joined(
            parts,
            sep,
        ));
    }
}

/// Joins the parts with `sep` between each two neighbours.
pub fn join(parts: &Vec<String>, sep: &str) -> (r: String)
    ensures
        r@ == joined(texts(*parts), sep@),
{
    let mut out = String::new();
    let mut i: usize = 0;
    while i < parts.len()
        invariant
            i <= parts@.len(),
            out@ == joined(texts(*parts).take(i as int), sep@),
        decreases parts@.len() - i,
    {
        if i > 0 {
            out.append(sep);
        }
        out.append(parts[i].as_str());
        proof {
            let t = texts(*parts);
            assert(t.take(i + 1).drop_last() =~= t.take(i as int));
            assert(t.take(i + 1).last() == parts@[i as int]@);
            assert(Seq::<char>::empty() + parts@[i as int]@ =~= parts@[i as int]@);
        }
        i = i + 1;
    }
    proof {
        assert(texts(*parts).take(parts@.len() as int) =~= texts(*parts));
    }
    out
}

/// The decimal digit that stands for `d`.
pub open spec fn digit(d: nat) -> char {
    if d == 0 {
        '0'
    } else if d == 1 {
        '1'
    } else if d == 2 {
        '2'
    } else if d == 3 {
        '3'
    } else if d == 4 {
        '4'
    } else if d == 5 {
        '5'
    } else if d == 6 {
        '6'
    } else if d == 7 {
        '7'
    } else if d == 8 {
        '8'
    } else {
        '9'
    }
}

/// The decimal numeral of `n`, without leading zeros.
pub open spec fn decimal_text(n: nat) -> Seq<char>
    decreases n,
{
    if n < 10 {
        seq![digit(n)]
    } else {
        decimal_text(n / 10) + seq![digit(n % 10)]
    }
}

fn digit_str(d: usize) -> (r: &'static str)
    requires
        d < 10,
    ensures
        r@ == seq![digit(d as nat)],
{
    proof {
        reveal_strlit("0");
        reveal_strlit("1");
        reveal_strlit("2");
        reveal_strlit("3");
        reveal_strlit("4");
        reveal_strlit("5");
        reveal_strlit("6");
        reveal_strlit("7");
        reveal_strlit("8");
        reveal_strlit("9");
    }
    let r = if d == 0 {
        "0"
    } else if d == 1 {
        "1"
    } else if d == 2 {
        "2"
    } else if d == 3 {
        "3"
    } else if d == 4 {
        "4"
    } else if d == 5 {
        "5"
    } else if d == 6 {
        "6"
    } else if d == 7 {
        "7"
    } else if d == 8 {
        "8"
    } else {
        "9"
    };
    assert(r@ =~= seq![digit(d as nat)]);
    r
}

/// Writes `n` as a decimal numeral.
pub fn decimal(n: usize) -> (r: String)
    ensures
        r@ == decimal_text(n as nat),
    decreases n,
{
    if n < 10 {
        String::from_str(digit_str(n))
    } else {
        decimal(n / 10).concat(digit_str(n % 10))
    }
}

} // verus!
