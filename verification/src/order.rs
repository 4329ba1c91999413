//! The order in which records are listed: by id, then by procedure, then by
//! each further field in turn, texts by their characters and argument lists
//! entry by entry.

use crate::output::Argument;
use crate::output::ArgumentView;
use crate::output::Method;
use crate::output::MethodView;
use crate::output::argument_views;
use crate::output::method_views;
use vstd::prelude::*;
use vstd::string::StrSliceExecFns;

verus! {

/// Where one value stands relative to another.
#[derive(Debug, Clone, Copy, PartialEq, Eq, Structural)]
pub enum Rank {
    Before,
    Same,
    After,
}

/// The first rank, or the second where the first is a tie.
pub open spec fn tie_break(first: Rank, second: Rank) -> Rank {
    if first is Same {
        second
    } else {
        first
    }
}

/// Numbers by size.
pub open spec fn number_rank(a: u64, b: u64) -> Rank {
    if a < b {
        Rank::Before
    } else if a == b {
        Rank::Same
    } else {
        Rank::After
    }
}

/// Texts by their first differing character, characters by their code; a
/// text before each of its extensions.
pub open spec fn text_rank(a: Seq<char>, b: Seq<char>) -> Rank
    decreases a.len(),
{
    if a.len() == 0 {
        if b.len() == 0 {
            Rank::Same
        } else {
            Rank::Before
        }
    } else if b.len() == 0 {
        Rank::After
    } else if a[0] != b[0] {
        if (a[0] as int) < (b[0] as int) {
            Rank::Before
        } else {
            Rank::After
        }
    } else {
        text_rank(a.skip(1), b.skip(1))
    }
}

/// Arguments by position, then encoder, then value.
pub open spec fn argument_rank(a: ArgumentView, b: ArgumentView) -> Rank {
    tie_break(
        number_rank(a.position, b.position),
        tie_break(
            text_rank(a.encoder_function, b.encoder_function),
            text_rank(a.value, b.value),
        ),
    )
}

/// Argument lists by their first differing entry; a list before each of its
/// extensions.
pub open spec fn arguments_rank(a: Seq<ArgumentView>, b: Seq<ArgumentView>) -> Rank
    decreases a.len(),
{
    if a.len() == 0 {
        if b.len() == 0 {
            Rank::Same
        } else {
            Rank::Before
        }
    } else if b.len() == 0 {
        Rank::After
    } else if !(argument_rank(a[0], b[0]) is Same) {
        argument_rank(a[0], b[0])
    } else {
        arguments_rank(a.skip(1), b.skip(1))
    }
}

/// Records by id, then procedure, then every further field in turn.
pub open spec fn method_rank(a: MethodView, b: MethodView) -> Rank {
    tie_break(
        number_rank(a.id, b.id),
        tie_break(
            text_rank(a.procedure, b.procedure),
            tie_break(
                text_rank(a.name, b.name),
                tie_break(
                    text_rank(a.arguments_signature, b.arguments_signature),
                    tie_break(
                        arguments_rank(a.arguments, b.arguments),
                        tie_break(
                            text_rank(a.decoder_function, b.decoder_function),
                            tie_break(
                                text_rank(a.before_return, b.before_return),
                                tie_break(
                                    text_rank(a.return_type_signature, b.return_type_signature),
                                    text_rank(a.return_value, b.return_value),
                                ),
                            ),
                        ),
                    ),
                ),
            ),
        ),
    )
}

/// `x` put into `s` in front of the first record that does not stand before
/// it.
pub open spec fn inserted(s: Seq<MethodView>, x: MethodView) -> Seq<MethodView>
    decreases s.len(),
{
    if s.len() == 0 || !(method_rank(s[0], x) is Before) {
        seq![x] + s
    } else {
        seq![s[0]] + inserted(s.skip(1), x)
    }
}

/// The records of `s` in ascending order.
pub open spec fn ordered(s: Seq<MethodView>) -> Seq<MethodView>
    decreases s.len(),
{
    if s.len() == 0 {
        Seq::empty()
    } else {
        inserted(ordered(s.skip(1)), s[0])
    }
}

/// The rank seen from the other side.
pub open spec fn flipped(r: Rank) -> Rank {
    match r {
        Rank::Before => Rank::After,
        Rank::Same => Rank::Same,
        Rank::After => Rank::Before,
    }
}

/// Whether the record at `i` does not stand after its right neighbour.
pub open spec fn in_step(s: Seq<MethodView>, i: int) -> bool {
    !(method_rank(s[i], s[i + 1]) is After)
}

/// Whether no record stands after its right neighbour.
pub open spec fn ascending(s: Seq<MethodView>) -> bool {
    forall|i: int| 0 <= i < s.len() - 1 ==> #[trigger] in_step(s, i)
}

/// Two texts rank the same exactly where they are equal, and swapping them
/// flips their rank.
pub proof fn lemma_text_rank(a: Seq<char>, b: Seq<char>)
    ensures
        text_rank(a, b) is Same <==> a == b,
        text_rank(b, a) == flipped(text_rank(a, b)),
    decreases a.len(),
{
    if a.len() > 0 && b.len() > 0 && a[0] == b[0] {
        lemma_text_rank(a.skip(1), b.skip(1));
        if a.skip(1) == b.skip(1) {
            assert(a =~= seq![a[0]] + a.skip(1));
            assert(b =~= seq![b[0]] + b.skip(1));
        }
    }
    if a.len() > 0 && b.len() > 0 && a[0] != b[0] {
        assert(a[0] as int != b[0] as int);
    }
    if a == b {
        assert(a.len() == b.len());
    } else if a.len() == 0 && b.len() == 0 {
        assert(a =~= b);
    }
}

/// Two arguments rank the same exactly where they are equal, and swapping
/// them flips their rank.
pub proof fn lemma_argument_rank(a: ArgumentView, b: ArgumentView)
    ensures
        argument_rank(a, b) is Same <==> a == b,
        argument_rank(b, a) == flipped(argument_rank(a, b)),
{
    lemma_text_rank(a.encoder_function, b.encoder_function);
    lemma_text_rank(a.value, b.value);
}

/// Two argument lists rank the same exactly where they are equal, and
/// swapping them flips their rank.
pub proof fn lemma_arguments_rank(a: Seq<ArgumentView>, b: Seq<ArgumentView>)
    ensures
        arguments_rank(a, b) is Same <==> a == b,
        arguments_rank(b, a) == flipped(arguments_rank(a, b)),
    decreases a.len(),
{
    if a.len() > 0 && b.len() > 0 {
        lemma_argument_rank(a[0], b[0]);
        if argument_rank(a[0], b[0]) is Same {
            lemma_arguments_rank(a.skip(1), b.skip(1));
            if a.skip(1) == b.skip(1) {
                assert(a =~= seq![a[0]] + a.skip(1));
                assert(b =~= seq![b[0]] + b.skip(1));
            }
        }
    }
    if a == b {
        assert(a.len() == b.len());
    } else if a.len() == 0 && b.len() == 0 {
        assert(a =~= b);
    }
}

/// The order of records is total: two records rank the same exactly where
/// they are equal, and swapping them flips their rank.
pub proof fn lemma_method_rank(a: MethodView, b: MethodView)
    ensures
        method_rank(a, b) is Same <==> a == b,
        method_rank(b, a) == flipped(method_rank(a, b)),
{
    lemma_text_rank(a.procedure, b.procedure);
    lemma_text_rank(a.name, b.name);
    lemma_text_rank(a.arguments_signature, b.arguments_signature);
    lemma_arguments_rank(a.arguments, b.arguments);
    lemma_text_rank(a.decoder_function, b.decoder_function);
    lemma_text_rank(a.before_return, b.before_return);
    lemma_text_rank(a.return_type_signature, b.return_type_signature);
    lemma_text_rank(a.return_value, b.return_value);
}

/// Putting a record into a list puts it at some place and moves nothing
/// else; an ascending list stays ascending.
pub proof fn lemma_inserted(s: Seq<MethodView>, x: MethodView) -> (p: int)
    ensures
        0 <= p <= s.len(),
        inserted(s, x) == s.insert(p, x),
        ascending(s) ==> ascending(inserted(s, x)),
    decreases s.len(),
{
    if s.len() == 0 || !(method_rank(s[0], x) is Before) {
        assert(seq![x] + s =~= s.insert(0, x));
        if ascending(s) {
            let r = inserted(s, x);
            assert forall|i: int| 0 <= i < r.len() - 1 implies #[trigger] in_step(r, i) by {
                if i == 0 {
                    lemma_method_rank(s[0], x);
                } else {
                    assert(in_step(s, i - 1));
                }
            }
        }
        0
    } else {
        let t = s.skip(1);
        let q = lemma_inserted(t, x);
        assert(seq![s[0]] + t.insert(q, x) =~= s.insert(q + 1, x));
        if ascending(s) {
            assert forall|i: int| 0 <= i < t.len() - 1 implies #[trigger] in_step(t, i) by {
                assert(in_step(s, i + 1));
            }
            let u = inserted(t, x);
            let r = inserted(s, x);
            assert forall|i: int| 0 <= i < r.len() - 1 implies #[trigger] in_step(r, i) by {
                if i == 0 {
                    if q == 0 {
                        assert(r[1] == x);
                    } else {
                        assert(r[1] == s[1]);
                        assert(in_step(s, 0));
                    }
                } else {
                    assert(in_step(u, i - 1));
                }
            }
        }
        q + 1
    }
}

/// Sorting keeps every record, as often as it occurs, and lists them in
/// ascending order.
pub proof fn lemma_ordered(s: Seq<MethodView>)
    ensures
        ordered(s).to_multiset() == s.to_multiset(),
        ordered(s).len() == s.len(),
        ascending(ordered(s)),
    decreases s.len(),
{
    if s.len() > 0 {
        let t = s.skip(1);
        lemma_ordered(t);
        let p = lemma_inserted(ordered(t), s[0]);
        vstd::seq_lib::to_multiset_insert(ordered(t), p, s[0]);
        vstd::seq_lib::to_multiset_insert(t, 0, s[0]);
        assert(t.insert(0, s[0]) =~= s);
    } else {
        assert(s =~= Seq::empty());
    }
}

/// The order of texts is transitive.
pub proof fn lemma_text_rank_chain(a: Seq<char>, b: Seq<char>, c: Seq<char>)
    requires
        text_rank(a, b) is Before,
        text_rank(b, c) is Before,
    ensures
        text_rank(a, c) is Before,
    decreases a.len(),
{
    if a.len() > 0 && b.len() > 0 && c.len() > 0 && a[0] == b[0] && b[0] == c[0] {
        lemma_text_rank_chain(a.skip(1), b.skip(1), c.skip(1));
    }
}

/// The order of arguments is transitive.
pub proof fn lemma_argument_rank_chain(a: ArgumentView, b: ArgumentView, c: ArgumentView)
    requires
        argument_rank(a, b) is Before,
        argument_rank(b, c) is Before,
    ensures
        argument_rank(a, c) is Before,
{
    lemma_text_rank(a.encoder_function, b.encoder_function);
    lemma_text_rank(b.encoder_function, c.encoder_function);
    lemma_text_rank(a.encoder_function, c.encoder_function);
    if text_rank(a.encoder_function, b.encoder_function) is Before && text_rank(
        b.encoder_function,
        c.encoder_function,
    ) is Before {
        lemma_text_rank_chain(a.encoder_function, b.encoder_function, c.encoder_function);
    }
    if text_rank(a.value, b.value) is Before && text_rank(b.value, c.value) is Before {
        lemma_text_rank_chain(a.value, b.value, c.value);
    }
    lemma_text_rank(a.value, b.value);
    lemma_text_rank(b.value, c.value);
}

/// The order of argument lists is transitive.
pub proof fn lemma_arguments_rank_chain(
    a: Seq<ArgumentView>,
    b: Seq<ArgumentView>,
    c: Seq<ArgumentView>,
)
    requires
        arguments_rank(a, b) is Before,
        arguments_rank(b, c) is Before,
    ensures
        arguments_rank(a, c) is Before,
    decreases a.len(),
{
    if a.len() > 0 && b.len() > 0 && c.len() > 0 {
        lemma_argument_rank(a[0], b[0]);
        lemma_argument_rank(b[0], c[0]);
        lemma_argument_rank(a[0], c[0]);
        if argument_rank(a[0], b[0]) is Before && argument_rank(b[0], c[0]) is Before {
            lemma_argument_rank_chain(a[0], b[0], c[0]);
        }
        if argument_rank(a[0], b[0]) is Same && argument_rank(b[0], c[0]) is Same {
            lemma_arguments_rank_chain(a.skip(1), b.skip(1), c.skip(1));
        }
    }
}

proof fn lemma_text_field(a: Seq<char>, b: Seq<char>, c: Seq<char>)
    ensures
        text_rank(a, b) is Same <==> a == b,
        text_rank(b, c) is Same <==> b == c,
        text_rank(a, c) is Same <==> a == c,
        text_rank(a, b) is Before && text_rank(b, c) is Before ==> text_rank(a, c) is Before,
{
    lemma_text_rank(a, b);
    lemma_text_rank(b, c);
    lemma_text_rank(a, c);
    if text_rank(a, b) is Before && text_rank(b, c) is Before {
        lemma_text_rank_chain(a, b, c);
    }
}

/// The order of records is transitive.
pub proof fn lemma_method_rank_chain(a: MethodView, b: MethodView, c: MethodView)
    requires
        method_rank(a, b) is Before,
        method_rank(b, c) is Before,
    ensures
        method_rank(a, c) is Before,
{
    lemma_text_field(a.procedure, b.procedure, c.procedure);
    lemma_text_field(a.name, b.name, c.name);
    lemma_text_field(a.arguments_signature, b.arguments_signature, c.arguments_signature);
    lemma_arguments_rank(a.arguments, b.arguments);
    lemma_arguments_rank(b.arguments, c.arguments);
    lemma_arguments_rank(a.arguments, c.arguments);
    if arguments_rank(a.arguments, b.arguments) is Before && arguments_rank(
        b.arguments,
        c.arguments,
    ) is Before {
        lemma_arguments_rank_chain(a.arguments, b.arguments, c.arguments);
    }
    lemma_text_field(a.decoder_function, b.decoder_function, c.decoder_function);
    lemma_text_field(a.before_return, b.before_return, c.before_return);
    lemma_text_field(a.return_type_signature, b.return_type_signature, c.return_type_signature);
    lemma_text_field(a.return_value, b.return_value, c.return_value);
}

/// In an ascending list no record stands after a later one.
pub proof fn lemma_ascending_pairs(s: Seq<MethodView>, i: int, j: int)
    requires
        ascending(s),
        0 <= i <= j < s.len(),
    ensures
        !(method_rank(s[i], s[j]) is After),
    decreases j - i,
{
    if i == j {
        lemma_method_rank(s[i], s[i]);
    } else {
        lemma_ascending_pairs(s, i, j - 1);
        assert(in_step(s, j - 1));
        lemma_method_rank(s[i], s[j - 1]);
        lemma_method_rank(s[j - 1], s[j]);
        if method_rank(s[i], s[j - 1]) is Before && method_rank(s[j - 1], s[j]) is Before {
            lemma_method_rank_chain(s[i], s[j - 1], s[j]);
        }
    }
}

/// Two ascending lists of the same records are the same list.
pub proof fn lemma_ascending_is_unique(s: Seq<MethodView>, t: Seq<MethodView>)
    requires
        ascending(s),
        ascending(t),
        s.to_multiset() == t.to_multiset(),
    ensures
        s == t,
    decreases s.len(),
{
    vstd::seq_lib::to_multiset_len(s);
    vstd::seq_lib::to_multiset_len(t);
    if s.len() == 0 {
        assert(s =~= t);
    } else {
        vstd::seq_lib::to_multiset_contains(s, s[0]);
        vstd::seq_lib::to_multiset_contains(t, s[0]);
        vstd::seq_lib::to_multiset_contains(s, t[0]);
        vstd::seq_lib::to_multiset_contains(t, t[0]);
        assert(s.contains(s[0]));
        assert(t.contains(t[0]));
        let j = choose|j: int| 0 <= j < t.len() && t[j] == s[0];
        let k = choose|k: int| 0 <= k < s.len() && s[k] == t[0];
        lemma_ascending_pairs(t, 0, j);
        lemma_ascending_pairs(s, 0, k);
        lemma_method_rank(s[0], t[0]);
        assert(s[0] == t[0]);
        let s1 = s.skip(1);
        let t1 = t.skip(1);
        assert(s.remove(0) =~= s1);
        assert(t.remove(0) =~= t1);
        vstd::seq_lib::to_multiset_remove(s, 0);
        vstd::seq_lib::to_multiset_remove(t, 0);
        assert forall|i: int| 0 <= i < s1.len() - 1 implies #[trigger] in_step(s1, i) by {
            assert(in_step(s, i + 1));
        }
        assert forall|i: int| 0 <= i < t1.len() - 1 implies #[trigger] in_step(t1, i) by {
            assert(in_step(t, i + 1));
        }
        lemma_ascending_is_unique(s1, t1);
        assert(s =~= seq![s[0]] + s1);
        assert(t =~= seq![t[0]] + t1);
    }
}

/// Sorting does not depend on the order in which the records come.
pub proof fn lemma_ordered_of_rearranged(s: Seq<MethodView>, t: Seq<MethodView>)
    requires
        s.to_multiset() == t.to_multiset(),
    ensures
        ordered(s) == ordered(t),
{
    lemma_ordered(s);
    lemma_ordered(t);
    lemma_ascending_is_unique(ordered(s), ordered(t));
}

/// Sorting neither loses a record nor adds one.
pub proof fn lemma_ordered_contains(s: Seq<MethodView>, x: MethodView)
    ensures
        ordered(s).contains(x) <==> s.contains(x),
{
    lemma_ordered(s);
    vstd::seq_lib::to_multiset_contains(s, x);
    vstd::seq_lib::to_multiset_contains(ordered(s), x);
}

/// Compares two numbers.
pub fn rank_numbers(a: u64, b: u64) -> (r: Rank)
    ensures
        r == number_rank(a, b),
{
    if a < b {
        Rank::Before
    } else if a == b {
        Rank::Same
    } else {
        Rank::After
    }
}

/// Compares two texts character by character.
pub fn rank_texts(a: &str, b: &str) -> (r: Rank)
    ensures
        r == text_rank(a@, b@),
{
    let n = a.unicode_len();
    let m = b.unicode_len();
    let mut i: usize = 0;
    assert(a@.skip(0) =~= a@ && b@.skip(0) =~= b@);
    while i < n && i < m
        invariant
            n == a@.len(),
            m == b@.len(),
            i <= n,
            i <= m,
            text_rank(a@, b@) == text_rank(a@.skip(i as int), b@.skip(i as int)),
        decreases n - i,
    {
        let x = a.get_char(i);
        let y = b.get_char(i);
        proof {
            assert(a@.skip(i as int)[0] == x);
            assert(b@.skip(i as int)[0] == y);
            assert(a@.skip(i as int).skip(1) =~= a@.skip(i + 1));
            assert(b@.skip(i as int).skip(1) =~= b@.skip(i + 1));
        }
        if x != y {
            if (x as u32) < (y as u32) {
                return Rank::Before;
            } else {
                return Rank::After;
            }
        }
        i = i + 1;
    }
    proof {
        assert(a@.skip(i as int).len() == n - i);
        assert(b@.skip(i as int).len() == m - i);
    }
    if i == n {
        if i == m {
            Rank::Same
        } else {
            Rank::Before
        }
    } else {
        Rank::After
    }
}

/// Compares two arguments.
pub fn rank_argument(a: &Argument, b: &Argument) -> (r: Rank)
    ensures
        r == argument_rank(a@, b@),
{
    let by_position = rank_numbers(a.position, b.position);
    if by_position != Rank::Same {
        return by_position;
    }
    let by_encoder = rank_texts(a.encoder_function.as_str(), b.encoder_function.as_str());
    if by_encoder != Rank::Same {
        return by_encoder;
    }
    rank_texts(a.value.as_str(), b.value.as_str())
}

/// Compares two argument lists entry by entry.
pub fn rank_arguments(a: &Vec<Argument>, b: &Vec<Argument>) -> (r: Rank)
    ensures
        r == arguments_rank(argument_views(*a), argument_views(*b)),
{
    let ghost av = argument_views(*a);
    let ghost bv = argument_views(*b);
    let mut i: usize = 0;
    assert(av.skip(0) =~= av && bv.skip(0) =~= bv);
    while i < a.len() && i < b.len()
        invariant
            av == argument_views(*a),
            bv == argument_views(*b),
            i <= a@.len(),
            i <= b@.len(),
            arguments_rank(av, bv) == arguments_rank(av.skip(i as int), bv.skip(i as int)),
        decreases a@.len() - i,
    {
        let r = rank_argument(&a[i], &b[i]);
        proof {
            assert(av.skip(i as int)[0] == a@[i as int]@);
            assert(bv.skip(i as int)[0] == b@[i as int]@);
            assert(av.skip(i as int).skip(1) =~= av.skip(i + 1));
            assert(bv.skip(i as int).skip(1) =~= bv.skip(i + 1));
        }
        if r != Rank::Same {
            return r;
        }
        i = i + 1;
    }
    proof {
        assert(av.skip(i as int).len() == a@.len() - i);
        assert(bv.skip(i as int).len() == b@.len() - i);
    }
    if i == a.len() {
        if i == b.len() {
            Rank::Same
        } else {
            Rank::Before
        }
    } else {
        Rank::After
    }
}

/// Compares two records.
pub fn rank_methods(a: &Method, b: &Method) -> (r: Rank)
    ensures
        r == method_rank(a@, b@),
{
    let by_id = rank_numbers(a.id, b.id);
    if by_id != Rank::Same {
        return by_id;
    }
    let by_procedure = rank_texts(a.procedure.as_str(), b.procedure.as_str());
    if by_procedure != Rank::Same {
        return by_procedure;
    }
    let by_name = rank_texts(a.name.as_str(), b.name.as_str());
    if by_name != Rank::Same {
        return by_name;
    }
    let by_signature = rank_texts(a.arguments_signature.as_str(), b.arguments_signature.as_str());
    if by_signature != Rank::Same {
        return by_signature;
    }
    let by_arguments = rank_arguments(&a.arguments, &b.arguments);
    if by_arguments != Rank::Same {
        return by_arguments;
    }
    let by_decoder = rank_texts(a.decoder_function.as_str(), b.decoder_function.as_str());
    if by_decoder != Rank::Same {
        return by_decoder;
    }
    let by_preparation = rank_texts(a.before_return.as_str(), b.before_return.as_str());
    if by_preparation != Rank::Same {
        return by_preparation;
    }
    let by_return_type = rank_texts(
        a.return_type_signature.as_str(),
        b.return_type_signature.as_str(),
    );
    if by_return_type != Rank::Same {
        return by_return_type;
    }
    rank_texts(a.return_value.as_str(), b.return_value.as_str())
}

/// Puts `x` into `list` in front of the first record that does not stand
/// before it.
pub fn insert_method(list: &mut Vec<Method>, x: Method)
    ensures
        method_views(*final(list)) == inserted(method_views(*old(list)), x@),
{
    let ghost before = method_views(*list);
    let mut p: usize = 0;
    assert(before.skip(0) =~= before);
    assert(before.take(0) + inserted(before, x@) =~= inserted(before, x@));
    while p < list.len() && rank_methods(&list[p], &x) == Rank::Before
        invariant
            p <= list@.len(),
            *list == *old(list),
            before == method_views(*list),
            inserted(before, x@) == before.take(p as int) + inserted(before.skip(p as int), x@),
        decreases list@.len() - p,
    {
        proof {
            let tail = before.skip(p as int);
            assert(tail[0] == list@[p as int]@);
            assert(tail.skip(1) =~= before.skip(p + 1));
            assert(before.take(p as int) + (seq![tail[0]] + inserted(tail.skip(1), x@))
                =~= before.take(p + 1) + inserted(before.skip(p + 1), x@));
        }
        p = p + 1;
    }
    proof {
        let tail = before.skip(p as int);
        if p < list@.len() {
            assert(tail[0] == list@[p as int]@);
        }
        assert(inserted(tail, x@) == seq![x@] + tail);
    }
    list.insert(p, x);
    assert(method_views(*list) =~= before.take(p as int) + (seq![x@] + before.skip(p as int)));
}

/// Sorts the records into ascending order.
pub fn sort_methods(methods: Vec<Method>) -> (r: Vec<Method>)
    ensures
        method_views(r) == ordered(method_views(methods)),
        method_views(r).to_multiset() == method_views(methods).to_multiset(),
        ascending(method_views(r)),
{
    let ghost all = method_views(methods);
    let mut rest = methods;
    let mut out: Vec<Method> = Vec::new();
    assert(all.skip(all.len() as int) =~= Seq::empty());
    assert(method_views(out) =~= Seq::empty());
    while rest.len() > 0
        invariant
            rest@.len() <= all.len(),
            method_views(rest) == all.take(rest@.len() as int),
            method_views(out) == ordered(all.skip(rest@.len() as int)),
        decreases rest@.len(),
    {
        let ghost k = rest@.len() - 1;
        let ghost prior = method_views(rest);
        let x = rest.pop().unwrap();
        proof {
            assert(x@ == prior[k]);
            assert(prior[k] == all[k]);
            assert(method_views(rest) =~= all.take(k));
            assert(all.skip(k)[0] == all[k]);
            assert(all.skip(k).skip(1) =~= all.skip(k + 1));
        }
        insert_method(&mut out, x);
    }
    proof {
        assert(all.skip(0) =~= all);
        lemma_ordered(all);
    }
    out
}

} // verus!
