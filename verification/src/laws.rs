//! What holds of every logger and of every specification.

use crate::directive::{
    allowed, arranges, deciding, is_stable_sort, lemma_deciding, lemma_deciding_unique, views,
    Directive,
};
use crate::filter::FilterKind;
use crate::level::{FilterLevel, Level};
use crate::logger::{built_from, fallback};
use crate::parser::{
    listed_rules, listed_warnings, parsed_from, read_directive, read_spec, rule_of, warning_of,
    ParsedSpec, Reading,
};
use crate::text::{first_index, lemma_first_index, lemma_first_index_unique, trim};
use vstd::prelude::*;
use vstd::utf8::encode_utf8;

verus! {

/// Whether `best` is the place in `input` of the directive that covers
/// `module` with the longest name, and of the last such directive where
/// several names are as long.
pub open spec fn most_specific(input: Seq<Directive>, module: Seq<char>, best: int) -> bool {
    &&& 0 <= best < input.len()
    &&& input[best].covers(module)
    &&& forall|j: int|
        0 <= j < input.len() && (#[trigger] input[j]).covers(module) ==> input[j].name_len()
            < input[best].name_len() || (input[j].name_len() == input[best].name_len() && j
            <= best)
}

/// The longest matching prefix decides: in a list sorted as a logger keeps
/// it, the directive that decides for a module is the most specific one of
/// those that were given, and its level alone says what passes.
pub proof fn lemma_longest_prefix_decides(
    input: Seq<Directive>,
    sorted: Seq<Directive>,
    module: Seq<char>,
    best: int,
)
    requires
        is_stable_sort(input, sorted),
        most_specific(input, module, best),
    ensures
        deciding(sorted, module) matches Some(i) && sorted[i] == input[best],
        forall|level: Level| allowed(sorted, level, module) == input[best].level.allows(level),
{
    let order = choose|order: Seq<int>| arranges(order, input, sorted);
    assert(order.contains(best));
    let at = choose|at: int| 0 <= at < order.len() && order[at] == best;
    assert(sorted[at] == input[order[at]]);
    lemma_deciding(sorted, module);
    let i = deciding(sorted, module).unwrap();
    if i != at {
        assert(at < i);
        assert(sorted[i] == input[order[i]]);
        assert(sorted[at].name_len() <= sorted[i].name_len());
        assert(input[order[i]].covers(module));
        assert(order[at] < order[i]);
    }
}

/// Of two beginnings of one text the one with more characters has more
/// bytes, so that the longest name is the same by either count.
pub proof fn lemma_longer_prefix_has_more_bytes(a: Seq<char>, b: Seq<char>, text: Seq<char>)
    requires
        a.is_prefix_of(text),
        b.is_prefix_of(text),
        a.len() <= b.len(),
    ensures
        encode_utf8(a).len() <= encode_utf8(b).len(),
        a.len() < b.len() ==> encode_utf8(a).len() < encode_utf8(b).len(),
    decreases a.len(),
{
    if a.len() == 0 {
        if b.len() > 0 {
            assert(encode_utf8(b).len() > 0);
        }
    } else {
        assert(a[0] == text.subrange(0, a.len() as int)[0]);
        assert(b[0] == text.subrange(0, b.len() as int)[0]);
        let rest = text.drop_first();
        assert(a.drop_first() =~= rest.subrange(0, a.len() - 1)) by {
            assert forall|i: int| 0 <= i < a.len() - 1 implies a.drop_first()[i]
                == rest.subrange(0, a.len() - 1)[i] by {
                assert(a[i + 1] == text.subrange(0, a.len() as int)[i + 1]);
            }
        }
        assert(b.drop_first() =~= rest.subrange(0, b.len() - 1)) by {
            assert forall|i: int| 0 <= i < b.len() - 1 implies b.drop_first()[i]
                == rest.subrange(0, b.len() - 1)[i] by {
                assert(b[i + 1] == text.subrange(0, b.len() as int)[i + 1]);
            }
        }
        lemma_longer_prefix_has_more_bytes(a.drop_first(), b.drop_first(), rest);
    }
}

/// Length of a directive's name in characters; 0 without a name.
pub open spec fn name_chars(d: Directive) -> nat {
    match d.name {
        Some(name) => name.len(),
        None => 0,
    }
}

/// The longest matching prefix decides, with lengths counted in
/// characters: of the directives that cover a module, the one with the most
/// characters in its name is also the one with the most bytes.
pub proof fn lemma_longest_in_characters_decides(
    input: Seq<Directive>,
    sorted: Seq<Directive>,
    module: Seq<char>,
    best: int,
)
    requires
        is_stable_sort(input, sorted),
        0 <= best < input.len(),
        input[best].covers(module),
        forall|j: int|
            0 <= j < input.len() && (#[trigger] input[j]).covers(module) ==> name_chars(input[j])
                < name_chars(input[best]) || (name_chars(input[j]) == name_chars(input[best])
                && j <= best),
    ensures
        deciding(sorted, module) matches Some(i) && sorted[i] == input[best],
        forall|level: Level| allowed(sorted, level, module) == input[best].level.allows(level),
{
    assert forall|j: int|
        0 <= j < input.len() && (#[trigger] input[j]).covers(module) implies input[j].name_len()
        < input[best].name_len() || (input[j].name_len() == input[best].name_len() && j
        <= best) by {
        let empty = Seq::<char>::empty();
        let a = match input[j].name {
            Some(name) => name,
            None => empty,
        };
        let b = match input[best].name {
            Some(name) => name,
            None => empty,
        };
        assert(empty.is_prefix_of(module));
        assert(encode_utf8(empty).len() == 0);
        assert(encode_utf8(a).len() == input[j].name_len());
        assert(encode_utf8(b).len() == input[best].name_len());
        if a.len() <= b.len() {
            lemma_longer_prefix_has_more_bytes(a, b, module);
        }
        if b.len() <= a.len() {
            lemma_longer_prefix_has_more_bytes(b, a, module);
        }
    }
    lemma_longest_prefix_decides(input, sorted, module, best);
}

/// A directive without a name is the fallback: where no directive with a
/// name covers the module, the last directive without a name decides.
pub proof fn lemma_fallback_decides(
    input: Seq<Directive>,
    sorted: Seq<Directive>,
    module: Seq<char>,
    last: int,
)
    requires
        is_stable_sort(input, sorted),
        0 <= last < input.len(),
        input[last].name is None,
        forall|j: int| last < j < input.len() ==> (#[trigger] input[j]).name is Some,
        forall|j: int|
            0 <= j < input.len() && (#[trigger] input[j]).name is Some ==> !input[j].covers(module),
    ensures
        forall|level: Level| allowed(sorted, level, module) == input[last].level.allows(level),
{
    assert(most_specific(input, module, last));
    lemma_longest_prefix_decides(input, sorted, module, last);
}

/// Without any directive that covers the module nothing passes.
pub proof fn lemma_uncovered_is_disabled(
    input: Seq<Directive>,
    sorted: Seq<Directive>,
    module: Seq<char>,
    level: Level,
)
    requires
        is_stable_sort(input, sorted),
        forall|j: int| 0 <= j < input.len() ==> !(#[trigger] input[j]).covers(module),
    ensures
        !allowed(sorted, level, module),
{
    let order = choose|order: Seq<int>| arranges(order, input, sorted);
    lemma_deciding(sorted, module);
    if deciding(sorted, module) is Some {
        let i = deciding(sorted, module).unwrap();
        assert(sorted[i] == input[order[i]]);
    }
}

/// `Off` allows no level.
pub proof fn lemma_off_allows_nothing(level: Level)
    ensures
        !FilterLevel::Off.allows(level),
{
}

/// `Off` on a prefix disables the modules under it: where the most
/// specific directive for a module is at `Off`, no event from that module
/// passes, whatever its level.
pub proof fn lemma_off_disables(
    input: Seq<Directive>,
    sorted: Seq<Directive>,
    module: Seq<char>,
    best: int,
    level: Level,
)
    requires
        is_stable_sort(input, sorted),
        most_specific(input, module, best),
        input[best].level == FilterLevel::Off,
    ensures
        !allowed(sorted, level, module),
{
    lemma_longest_prefix_decides(input, sorted, module, best);
}

/// A stable sort has one outcome.
pub proof fn lemma_stable_sort_is_unique(
    input: Seq<Directive>,
    a: Seq<Directive>,
    b: Seq<Directive>,
)
    requires
        is_stable_sort(input, a),
        is_stable_sort(input, b),
    ensures
        a == b,
{
    let oa = choose|order: Seq<int>| arranges(order, input, a);
    let ob = choose|order: Seq<int>| arranges(order, input, b);
    lemma_orders_agree(input, a, b, oa, ob, input.len() as int);
    assert(a =~= b);
}

/// The two arrangements behind two stable sorts of one list agree on the
/// first `n` places.
proof fn lemma_orders_agree(
    input: Seq<Directive>,
    a: Seq<Directive>,
    b: Seq<Directive>,
    oa: Seq<int>,
    ob: Seq<int>,
    n: int,
)
    requires
        arranges(oa, input, a),
        arranges(ob, input, b),
        0 <= n <= input.len(),
    ensures
        forall|i: int| 0 <= i < n ==> oa[i] == ob[i] && a[i] == b[i],
    decreases n,
{
    if n > 0 {
        lemma_orders_agree(input, a, b, oa, ob, n - 1);
        let i = n - 1;
        let x = oa[i];
        let y = ob[i];
        if x != y {
            assert(ob.contains(x));
            let j = choose|j: int| 0 <= j < ob.len() && ob[j] == x;
            assert(oa.contains(y));
            let k = choose|k: int| 0 <= k < oa.len() && oa[k] == y;
            // `x` stands behind `i` in `b`, and `y` behind `i` in `a`.
            if j < i {
                lemma_arrangement_is_injective(input, a, oa, j, i);
            }
            if k < i {
                lemma_arrangement_is_injective(input, b, ob, k, i);
            }
            assert(i < j && i < k);
            assert(b[i] == input[y] && b[j] == input[x]);
            assert(a[i] == input[x] && a[k] == input[y]);
            assert(b[i].name_len() <= b[j].name_len());
            assert(a[i].name_len() <= a[k].name_len());
            assert(ob[i] < ob[j]);
            assert(oa[i] < oa[k]);
        }
    }
}

/// Two places of an arrangement hold two directives of the input.
proof fn lemma_arrangement_is_injective(
    input: Seq<Directive>,
    output: Seq<Directive>,
    order: Seq<int>,
    i: int,
    j: int,
)
    requires
        arranges(order, input, output),
        0 <= i < j < output.len(),
    ensures
        order[i] != order[j],
{
    if order[i] == order[j] {
        assert(output[i] == input[order[i]]);
        assert(output[j] == input[order[j]]);
        assert(order[i] < order[j]);
    }
}

/// The list that a logger keeps is determined by the directives given.
pub proof fn lemma_build_is_repeatable(input: Seq<Directive>, a: Seq<Directive>, b: Seq<Directive>)
    requires
        built_from(input, a),
        built_from(input, b),
    ensures
        a == b,
{
    if input.len() > 0 {
        lemma_stable_sort_is_unique(input, a, b);
    }
}

/// Parsing is repeatable: two readings of one specification give the same
/// directives in the same order, and loggers built from them keep the same
/// list.
pub proof fn lemma_parse_is_repeatable(
    spec: Seq<char>,
    kind: FilterKind,
    first: ParsedSpec,
    second: ParsedSpec,
    first_built: Seq<Directive>,
    second_built: Seq<Directive>,
)
    requires
        parsed_from(read_spec(spec), kind, first),
        parsed_from(read_spec(spec), kind, second),
        built_from(views(first.directives@), first_built),
        built_from(views(second.directives@), second_built),
    ensures
        views(first.directives@) == views(second.directives@),
        first_built == second_built,
{
    lemma_build_is_repeatable(views(first.directives@), first_built, second_built);
}

/// A module followed by `=` and nothing else stands at the highest level.
pub proof fn lemma_empty_level_is_highest(name: Seq<char>)
    requires
        !name.contains('='),
    ensures
        read_directive(name.push('=')) == Reading::Rule(
            Directive { name: Some(name), level: FilterLevel::Trace },
        ),
{
    let item = name.push('=');
    assert forall|j: int| 0 <= j < name.len() implies item[j] != '=' by {
        assert(name.contains(name[j]));
    }
    lemma_first_index_unique(item, '=', name.len() as int);
    assert(item.skip(name.len() as int + 1) =~= Seq::<char>::empty());
    assert(item.take(name.len() as int) =~= name);
    assert(trim(Seq::<char>::empty()) =~= Seq::<char>::empty());
}

/// Two `/` anywhere in a specification make it void: it gives no
/// directives and no filter.
pub proof fn lemma_two_slashes_void(spec: Seq<char>, i: int, j: int)
    requires
        0 <= i < j < spec.len(),
        spec[i] == '/',
        spec[j] == '/',
    ensures
        read_spec(spec).directives.len() == 0,
        read_spec(spec).pattern is None,
{
    lemma_first_index(spec, '/');
    let slash = first_index(spec, '/');
    assert(slash <= i);
    assert(spec.skip(slash + 1)[j - slash - 1] == '/');
}

/// The items of a list are read one by one: two lists joined by a comma
/// give the directives of the first followed by those of the second, and
/// the warnings likewise. So an item that is left out takes nothing else
/// with it.
pub proof fn lemma_items_are_independent(a: Seq<char>, b: Seq<char>)
    ensures
        listed_rules(a.push(',') + b) == listed_rules(a) + listed_rules(b),
        listed_warnings(a.push(',') + b) == listed_warnings(a) + listed_warnings(b),
    decreases a.len(),
{
    let joined = a.push(',') + b;
    let comma = first_index(a, ',');
    lemma_first_index(a, ',');
    assert forall|j: int| 0 <= j < comma implies joined[j] != ',' by {
        assert(joined[j] == a[j]);
    }
    lemma_first_index_unique(joined, ',', comma);
    assert(joined.take(comma) == a.take(comma));
    if comma < a.len() {
        let rest = a.skip(comma + 1);
        assert(joined.skip(comma + 1) == rest.push(',') + b);
        lemma_items_are_independent(rest, b);
        let head = read_directive(a.take(comma));
        assert(listed_rules(joined) == rule_of(head) + (listed_rules(rest)
            + listed_rules(b)));
        assert(listed_warnings(joined) == warning_of(head) + (listed_warnings(rest)
            + listed_warnings(b)));
    } else {
        assert(a.take(comma) == a);
        assert(joined.skip(comma + 1) == b);
    }
}

/// What stands behind the one `/` of a specification is its pattern, as
/// written, and what stands before it is its directive list.
pub proof fn lemma_pattern_as_written(list: Seq<char>, pattern: Seq<char>)
    requires
        !list.contains('/'),
        !pattern.contains('/'),
    ensures
        read_spec(list.push('/') + pattern).pattern == Some(pattern),
        read_spec(list.push('/') + pattern).directives == listed_rules(list),
        read_spec(list.push('/') + pattern).warnings == listed_warnings(list),
{
    let spec = list.push('/') + pattern;
    assert forall|j: int| 0 <= j < list.len() implies spec[j] != '/' by {
        assert(spec[j] == list[j]);
        assert(list.contains(list[j]));
    }
    lemma_first_index_unique(spec, '/', list.len() as int);
    assert(spec.take(list.len() as int) == list);
    assert(spec.skip(list.len() as int + 1) == pattern);
}

} // verus!
