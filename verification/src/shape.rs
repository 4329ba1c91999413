//! The shapes of procedure names, on their characters: which of the three
//! keywords stands last in a name between two separators, and where the
//! last separator stands. These say what the two patterns find in a name
//! that holds no line break.

use vstd::prelude::*;

verus! {

/// The pattern of a name with one of the three keywords in its middle.
pub open spec fn keyword_pattern() -> Seq<char> {
    "(.*)_(get|set|static)_(.*)"@
}

/// The pattern of a name in two parts.
pub open spec fn pair_pattern() -> Seq<char> {
    "(get|set|.*)_(.*)"@
}

/// Whether the text holds a line break, which no `.` of a pattern matches.
pub open spec fn has_line_break(t: Seq<char>) -> bool {
    t.contains('\n')
}

/// A keyword between two separators.
pub open spec fn framed(keyword: Seq<char>) -> Seq<char> {
    seq!['_'] + keyword + seq!['_']
}

/// Whether `part` stands in `t` from the place `q` on.
pub open spec fn stands_at(t: Seq<char>, q: int, part: Seq<char>) -> bool {
    0 <= q && q + part.len() <= t.len() && t.subrange(q, q + part.len()) == part
}

/// The keyword that stands at `q` between two separators, if one does.
pub open spec fn keyword_at(t: Seq<char>, q: int) -> Option<Seq<char>> {
    if stands_at(t, q, framed("get"@)) {
        Some("get"@)
    } else if stands_at(t, q, framed("set"@)) {
        Some("set"@)
    } else if stands_at(t, q, framed("static"@)) {
        Some("static"@)
    } else {
        None
    }
}

/// The last place up to `n` at which a framed keyword stands.
pub open spec fn last_keyword_up_to(t: Seq<char>, n: int) -> Option<int>
    decreases n + 1,
{
    if n < 0 {
        None
    } else if keyword_at(t, n) is Some {
        Some(n)
    } else {
        last_keyword_up_to(t, n - 1)
    }
}

/// The last place up to `n` at which a separator stands.
pub open spec fn last_separator_up_to(t: Seq<char>, n: int) -> Option<int>
    decreases n + 1,
{
    if n < 0 {
        None
    } else if n < t.len() && t[n] == '_' {
        Some(n)
    } else {
        last_separator_up_to(t, n - 1)
    }
}

/// What the keyword pattern finds in a text without line break: nothing
/// where no framed keyword stands in it; else the whole text, what stands
/// before the last framed keyword, that keyword, and what stands behind it.
pub open spec fn keyword_groups(t: Seq<char>) -> Option<Seq<Option<Seq<char>>>> {
    match last_keyword_up_to(t, t.len() as int) {
        Some(q) => {
            let keyword = keyword_at(t, q)->0;
            Some(
                seq![
                    Some(t),
                    Some(t.take(q)),
                    Some(keyword),
                    Some(t.skip(q + keyword.len() + 2)),
                ],
            )
        },
        None => None,
    }
}

/// What the pair pattern finds in a text without line break: nothing where
/// no separator stands in it; the whole text, `get` or `set` and the rest
/// where the text begins with `get_` or `set_`; else the whole text, what
/// stands before the last separator, and what stands behind it.
pub open spec fn pair_groups(t: Seq<char>) -> Option<Seq<Option<Seq<char>>>> {
    if stands_at(t, 0, "get"@ + seq!['_']) {
        Some(seq![Some(t), Some("get"@), Some(t.skip("get"@.len() as int + 1))])
    } else if stands_at(t, 0, "set"@ + seq!['_']) {
        Some(seq![Some(t), Some("set"@), Some(t.skip("set"@.len() as int + 1))])
    } else {
        match last_separator_up_to(t, t.len() - 1) {
            Some(q) => Some(seq![Some(t), Some(t.take(q)), Some(t.skip(q + 1))]),
            None => None,
        }
    }
}

/// The last framed keyword is one, and none stands behind it.
pub proof fn lemma_last_keyword(t: Seq<char>, n: int)
    ensures
        match last_keyword_up_to(t, n) {
            Some(q) => 0 <= q <= n && keyword_at(t, q) is Some && forall|p: int|
                q < p <= n ==> (#[trigger] keyword_at(t, p)) is None,
            None => forall|p: int| 0 <= p <= n ==> (#[trigger] keyword_at(t, p)) is None,
        },
    decreases n + 1,
{
    if n >= 0 && keyword_at(t, n) is None {
        lemma_last_keyword(t, n - 1);
    }
}

/// The last separator is one, and none stands behind it.
pub proof fn lemma_last_separator(t: Seq<char>, n: int)
    requires
        n < t.len(),
    ensures
        match last_separator_up_to(t, n) {
            Some(q) => 0 <= q <= n && t[q] == '_' && forall|p: int|
                q < p <= n ==> (#[trigger] t[p]) != '_',
            None => forall|p: int| 0 <= p <= n ==> (#[trigger] t[p]) != '_',
        },
    decreases n + 1,
{
    if n >= 0 && t[n] != '_' {
        lemma_last_separator(t, n - 1);
    }
}

/// A framed keyword is one of the three, with a separator on either side.
pub proof fn lemma_keyword_frame(t: Seq<char>, q: int)
    requires
        keyword_at(t, q) is Some,
    ensures
        ({
            let k = keyword_at(t, q)->0;
            &&& k == "get"@ || k == "set"@ || k == "static"@
            &&& 3 <= k.len()
            &&& 0 <= q
            &&& q + k.len() + 2 <= t.len()
            &&& t[q] == '_'
            &&& t[q + k.len() + 1] == '_'
            &&& t.subrange(q + 1, q + 1 + k.len()) == k
        }),
{
    reveal_strlit("get");
    reveal_strlit("set");
    reveal_strlit("static");
    let k = keyword_at(t, q)->0;
    let f = framed(k);
    let part = t.subrange(q, q + f.len());
    assert(part == f);
    assert(part[0] == f[0]);
    let n = k.len() as int;
    assert(part[n + 1] == f[n + 1]);
    assert(t.subrange(q + 1, q + 1 + n) =~= part.subrange(1, 1 + n));
    assert(f.subrange(1, 1 + n) =~= k);
}

} // verus!
