//! Directives: which module paths a rule covers, which directive decides for
//! a module, and the order in which a logger keeps them.

use crate::level::{FilterLevel, Level};
use crate::text::starts_with;
use vstd::prelude::*;
use vstd::utf8::encode_utf8;

verus! {

/// One rule: events of the modules under `name` pass up to `level`. Without
/// a `name` the rule covers every module.
#[derive(Clone, Debug, PartialEq, Eq)]
pub struct LogDirective {
    pub name: Option<String>,
    pub level: FilterLevel,
}

/// A directive as a mathematical value.
pub struct Directive {
    pub name: Option<Seq<char>>,
    pub level: FilterLevel,
}

impl Directive {
    /// Length of the name in bytes of UTF-8; 0 without a name.
    pub open spec fn name_len(self) -> nat {
        match self.name {
            Some(name) => encode_utf8(name).len(),
            None => 0,
        }
    }

    /// Whether the directive covers `module`: it has no name, or `module`
    /// begins with its name.
    pub open spec fn covers(self, module: Seq<char>) -> bool {
        match self.name {
            Some(name) => name.is_prefix_of(module),
            None => true,
        }
    }
}

impl View for LogDirective {
    type V = Directive;

    open spec fn view(&self) -> Directive {
        Directive {
            name: match self.name {
                Some(name) => Some(name@),
                None => None,
            },
            level: self.level,
        }
    }
}

/// The directives of a list as mathematical values.
pub open spec fn views(dirs: Seq<LogDirective>) -> Seq<Directive> {
    dirs.map_values(|d: LogDirective| d@)
}

/// Place of the directive that decides for `module`: the last one in `dirs`
/// that covers it.
pub open spec fn deciding(dirs: Seq<Directive>, module: Seq<char>) -> Option<int>
    decreases dirs.len(),
{
    if dirs.len() == 0 {
        None
    } else if dirs.last().covers(module) {
        Some(dirs.len() - 1)
    } else {
        deciding(dirs.drop_last(), module)
    }
}

/// Whether `dirs` let an event of `level` from `module` through: the
/// deciding directive allows the level; nothing passes where none covers
/// the module.
pub open spec fn allowed(dirs: Seq<Directive>, level: Level, module: Seq<char>) -> bool {
    match deciding(dirs, module) {
        Some(i) => dirs[i].level.allows(level),
        None => false,
    }
}

/// The deciding place is the one that covers `module` with none behind it
/// that does.
pub proof fn lemma_deciding(dirs: Seq<Directive>, module: Seq<char>)
    ensures
        match deciding(dirs, module) {
            Some(i) => {
                &&& 0 <= i < dirs.len()
                &&& dirs[i].covers(module)
                &&& forall|j: int| i < j < dirs.len() ==> !(#[trigger] dirs[j]).covers(module)
            },
            None => forall|j: int| 0 <= j < dirs.len() ==> !(#[trigger] dirs[j]).covers(module),
        },
    decreases dirs.len(),
{
    if dirs.len() > 0 && !dirs.last().covers(module) {
        let front = dirs.drop_last();
        lemma_deciding(front, module);
        assert forall|j: int| 0 <= j < dirs.len() - 1 implies dirs[j] == front[j] by {}
    }
}

/// A place that covers `module`, with none behind it that does, is the
/// deciding place.
pub proof fn lemma_deciding_unique(dirs: Seq<Directive>, module: Seq<char>, i: int)
    requires
        0 <= i < dirs.len(),
        dirs[i].covers(module),
        forall|j: int| i < j < dirs.len() ==> !(#[trigger] dirs[j]).covers(module),
    ensures
        deciding(dirs, module) == Some(i),
{
    lemma_deciding(dirs, module);
}

/// Whether `dirs` stand in ascending order of name length.
pub open spec fn ascending(dirs: Seq<Directive>) -> bool {
    forall|i: int, j: int|
        0 <= i < j < dirs.len() ==> (#[trigger] dirs[i]).name_len() <= (
        #[trigger] dirs[j]).name_len()
}

/// Whether `output` holds the directives of `input` sorted by name length,
/// those of equal length in the order they had in `input`. `order[i]` is
/// the place in `input` of the directive at place `i` of `output`.
pub open spec fn arranges(order: Seq<int>, input: Seq<Directive>, output: Seq<Directive>) -> bool {
    &&& order.len() == input.len()
    &&& output.len() == input.len()
    &&& forall|i: int|
        0 <= i < output.len() ==> 0 <= #[trigger] order[i] < input.len() && output[i]
            == input[order[i]]
    &&& forall|k: int| 0 <= k < input.len() ==> #[trigger] order.contains(k)
    &&& ascending(output)
    &&& forall|i: int, j: int|
        0 <= i < j < output.len() && output[i].name_len() == output[j].name_len()
            ==> #[trigger] order[i] < #[trigger] order[j]
}

/// Whether `output` is `input` after a stable sort by name length.
pub open spec fn is_stable_sort(input: Seq<Directive>, output: Seq<Directive>) -> bool {
    exists|order: Seq<int>| arranges(order, input, output)
}

impl LogDirective {
    /// Length of the name in bytes; 0 without a name.
    pub fn name_len(&self) -> (n: usize)
        ensures
            n == self@.name_len(),
    {
        match &self.name {
            Some(name) => name.as_str().as_bytes().len(),
            None => 0,
        }
    }

    /// Decides whether the directive covers `module`.
    pub fn covers(&self, module: &str) -> (b: bool)
        ensures
            b == self@.covers(module@),
    {
        match &self.name {
            Some(name) => starts_with(module, name.as_str()),
            None => true,
        }
    }
}

/// Decides whether `dirs` let an event of `level` from `module` through,
/// going from the last directive to the first.
pub fn enabled_by(dirs: &Vec<LogDirective>, level: Level, module: &str) -> (b: bool)
    ensures
        b == allowed(views(dirs@), level, module@),
{
    let mut i: usize = dirs.len();
    while i > 0
        invariant
            i <= dirs.len(),
            forall|j: int| i <= j < dirs.len() ==> !(#[trigger] views(dirs@)[j]).covers(module@),
        decreases i,
    {
        i = i - 1;
        if dirs[i].covers(module) {
            proof {
                lemma_deciding_unique(views(dirs@), module@, i as int);
            }
            return dirs[i].level.accepts(level);
        }
    }
    proof {
        lemma_deciding(views(dirs@), module@);
    }
    false
}

/// Sorts directives by name length, shortest first; directives of equal
/// length keep their order.
pub fn sort_by_name_len(dirs: Vec<LogDirective>) -> (sorted: Vec<LogDirective>)
    ensures
        is_stable_sort(views(dirs@), views(sorted@)),
{
    let mut out: Vec<LogDirective> = Vec::new();
    let ghost mut order: Seq<int> = Seq::empty();
    let ghost input = views(dirs@);
    for d in it: dirs
        invariant
            it.seq() == dirs@,
            input == views(dirs@),
            arranges(order, input.take(it.index() as int), views(out@)),
    {
        let ghost k = it.index() as int;
        let ghost before = views(out@);
        let key = d.name_len();
        let mut pos: usize = out.len();
        while pos > 0 && out[pos - 1].name_len() > key
            invariant
                pos <= out.len(),
                before == views(out@),
                forall|j: int| pos <= j < out.len() ==> (#[trigger] before[j]).name_len() > key,
            decreases pos,
        {
            pos = pos - 1;
        }
        out.insert(pos, d);
        proof {
            let after = views(out@);
            let new_order = order.insert(pos as int, k);
            assert(after =~= before.insert(pos as int, d@));
            assert forall|i: int| 0 <= i < after.len() implies 0 <= #[trigger] new_order[i] < k + 1
                && after[i] == input.take(k + 1)[new_order[i]] by {
                if i < pos {
                    assert(new_order[i] == order[i]);
                    assert(after[i] == before[i]);
                } else if i > pos {
                    assert(new_order[i] == order[i - 1]);
                    assert(after[i] == before[i - 1]);
                }
            }
            assert forall|m: int| 0 <= m < k + 1 implies #[trigger] new_order.contains(m) by {
                if m == k {
                    assert(new_order[pos as int] == k);
                } else {
                    assert(order.contains(m));
                    let j = choose|j: int| 0 <= j < order.len() && order[j] == m;
                    if j < pos {
                        assert(new_order[j] == m);
                    } else {
                        assert(new_order[j + 1] == m);
                    }
                }
            }
            assert forall|i: int, j: int| 0 <= i < j < after.len() implies (
            #[trigger] after[i]).name_len() <= (#[trigger] after[j]).name_len() by {
                let bi = if i < pos { i } else { i - 1 };
                let bj = if j < pos { j } else { j - 1 };
                if i != pos && j != pos {
                    assert(after[i] == before[bi]);
                    assert(after[j] == before[bj]);
                } else if i == pos {
                    assert(after[j] == before[bj]);
                } else {
                    assert(after[i] == before[bi]);
                    if pos > 0 {
                        assert(before[pos - 1].name_len() <= key);
                    }
                }
            }
            assert forall|i: int, j: int|
                0 <= i < j < after.len() && after[i].name_len()
                    == after[j].name_len() implies #[trigger] new_order[i]
                < #[trigger] new_order[j] by {
                let bi = if i < pos { i } else { i - 1 };
                let bj = if j < pos { j } else { j - 1 };
                if i != pos && j != pos {
                    assert(after[i] == before[bi]);
                    assert(after[j] == before[bj]);
                    assert(new_order[i] == order[bi]);
                    assert(new_order[j] == order[bj]);
                } else if i == pos {
                    assert(after[j] == before[bj]);
                } else {
                    assert(new_order[i] == order[bi]);
                }
            }
            order = new_order;
        }
    }
    proof {
        assert(input.take(dirs@.len() as int) == input);
    }
    out
}

} // verus!
