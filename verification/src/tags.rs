use vstd::prelude::*;
use crate::sums::{
    all_fit, fits, lemma_part_step, lemma_part_whole, merged, part, total, weight, widened,
};
use crate::table::Table;

verus! {

/// A tag store as a mathematical object: the names that are present, each with its weight.
pub type TagMap = Map<Seq<char>, int>;

/// A mapping from tag names to 32-bit weights. A name can be present with weight 0.
#[derive(Debug)]
pub struct Tags {
    weights: Table<i32>,
}

impl View for Tags {
    type V = TagMap;

    closed spec fn view(&self) -> TagMap {
        widened(self.weights@)
    }
}

impl Tags {
    /// The empty store.
    pub fn new() -> (tags: Self)
        ensures
            tags@ == Map::<Seq<char>, int>::empty(),
    {
        let tags = Tags { weights: Table::new() };
        assert(tags@ =~= Map::<Seq<char>, int>::empty());
        tags
    }

    /// Whether `name` is present, whatever it weighs.
    pub fn has(&self, name: &str) -> (present: bool)
        ensures
            present == self@.contains_key(name@),
    {
        self.weights.contains_key(name)
    }

    /// The weight of `name`, 0 when it is absent.
    pub fn value(&self, name: &str) -> (w: i32)
        ensures
            w == weight(self@, name@),
    {
        match self.weights.get(name) {
            Some(w) => *w,
            None => 0,
        }
    }

    /// Adds `value` to the weight of `name`, which becomes present if it was not.
    pub fn add(&mut self, name: &str, value: i32)
        requires
            i32::MIN <= weight(old(self)@, name@) + value <= i32::MAX,
        ensures
            final(self)@ == old(self)@.insert(name@, weight(old(self)@, name@) + value),
    {
        let w = self.value(name);
        self.weights.put(name, w + value);
        assert(self@ =~= old(self)@.insert(name@, weight(old(self)@, name@) + value));
    }

    /// Merges `other` in: every weight becomes the sum of what both stores held for its name.
    pub fn merge_in(&mut self, other: &Tags)
        requires
            fits(merged(old(self)@, other@)),
        ensures
            final(self)@ == merged(old(self)@, other@),
    {
        let n = other.weights.len();
        let ghost names = other.weights.names();
        let mut i: usize = 0;
        assert(self@ =~= merged(old(self)@, part(other@, names, 0)));
        while i < n
            invariant
                i <= n,
                n == names.len(),
                names == other.weights.names(),
                other.weights.listed(),
                fits(merged(old(self)@, other@)),
                self@ == merged(old(self)@, part(other@, names, i as int)),
            decreases n - i,
        {
            let name = other.weights.name_at(i);
            let w = *other.weights.value_at(i);
            proof {
                lemma_part_step(old(self)@, other@, names, i as int);
                assert(merged(old(self)@, other@).contains_key(name@));
            }
            self.add(name, w);
            i += 1;
        }
        proof {
            lemma_part_whole(other@, names);
        }
    }

    /// The names that are present, each once, with their weights.
    pub fn pairs(&self) -> (out: Vec<(String, i32)>)
        ensures
            forall|i: int, j: int|
                0 <= i < j < out@.len() ==> (#[trigger] out@[i]).0@ != (#[trigger] out@[j]).0@,
            forall|i: int|
                0 <= i < out@.len() ==> self@.contains_key((#[trigger] out@[i]).0@)
                    && self@[out@[i].0@] == out@[i].1,
            forall|name: Seq<char>| #[trigger]
                self@.contains_key(name) ==> exists|i: int|
                    0 <= i < out@.len() && (#[trigger] out@[i]).0@ == name,
    {
        let n = self.weights.len();
        let ghost names = self.weights.names();
        let mut out: Vec<(String, i32)> = Vec::new();
        let mut i: usize = 0;
        while i < n
            invariant
                i <= n,
                n == names.len(),
                names == self.weights.names(),
                self.weights.listed(),
                out@.len() == i,
                forall|k: int| 0 <= k < i ==> (#[trigger] out@[k]).0@ == names[k],
                forall|k: int|
                    0 <= k < i ==> self@.contains_key(names[k]) && self@[names[k]]
                        == (#[trigger] out@[k]).1,
            decreases n - i,
        {
            let name = self.weights.name_at(i);
            let w = *self.weights.value_at(i);
            out.push((name.to_owned(), w));
            i += 1;
        }
        proof {
            assert forall|name: Seq<char>| #[trigger] self@.contains_key(name) implies exists|
                i: int,
            |
                0 <= i < out@.len() && (#[trigger] out@[i]).0@ == name by {
                assert(self.weights@.contains_key(name));
                assert(names.contains(name));
                let i = choose|i: int| 0 <= i < names.len() && names[i] == name;
                assert(out@[i].0@ == name);
            }
        }
        out
    }

    /// The weights of a store are 32-bit integers.
    pub proof fn lemma_fits(&self)
        ensures
            fits(self@),
    {
    }

    /// Whether `other` can be merged in without a weight leaving the 32-bit range.
    pub fn can_merge(&self, other: &Tags) -> (ok: bool)
        ensures
            ok == fits(merged(self@, other@)),
    {
        let n = other.weights.len();
        let ghost names = other.weights.names();
        let mut i: usize = 0;
        proof {
            self.lemma_fits();
            assert(merged(self@, part(other@, names, 0)) =~= self@);
        }
        while i < n
            invariant
                i <= n,
                n == names.len(),
                names == other.weights.names(),
                other.weights.listed(),
                fits(merged(self@, part(other@, names, i as int))),
            decreases n - i,
        {
            let name = other.weights.name_at(i);
            let w = *other.weights.value_at(i);
            let sum = self.value(name) as i64 + w as i64;
            proof {
                lemma_part_step(self@, other@, names, i as int);
            }
            if sum < i32::MIN as i64 || sum > i32::MAX as i64 {
                assert(merged(self@, other@).contains_key(name@));
                return false;
            }
            i += 1;
        }
        proof {
            lemma_part_whole(other@, names);
        }
        true
    }
}

/// The stores as mathematical objects.
pub open spec fn tag_maps(parts: Seq<&Tags>) -> Seq<TagMap> {
    Seq::new(parts.len(), |i: int| parts[i]@)
}

/// Merges all of `parts` into `start`, one after the other; nothing where a weight
/// would leave the 32-bit range on the way.
pub fn merge_all(start: Tags, parts: &[&Tags]) -> (out: Option<Tags>)
    ensures
        match out {
            Some(tags) => all_fit(start@, tag_maps(parts@)) && tags@ == total(
                start@,
                tag_maps(parts@),
            ),
            None => !all_fit(start@, tag_maps(parts@)),
        },
{
    let ghost maps = tag_maps(parts@);
    let mut tags = start;
    let mut i: usize = 0;
    proof {
        tags.lemma_fits();
        assert(maps.take(0) =~= Seq::<TagMap>::empty());
    }
    while i < parts.len()
        invariant
            i <= parts@.len(),
            maps == tag_maps(parts@),
            tags@ == total(start@, maps.take(i as int)),
            forall|n: int| 0 <= n <= i ==> fits(#[trigger] total(start@, maps.take(n))),
        decreases parts@.len() - i,
    {
        proof {
            assert(maps.take(i + 1).drop_last() =~= maps.take(i as int));
            assert(maps.take(i + 1).last() == parts@[i as int]@);
        }
        if !tags.can_merge(parts[i]) {
            assert(!fits(total(start@, maps.take(i + 1))));
            return None;
        }
        tags.merge_in(parts[i]);
        i += 1;
    }
    assert(maps.take(parts@.len() as int) =~= maps);
    Some(tags)
}

/// One operand of a comparison: a number, or the weight of a tag.
#[derive(Debug)]
pub enum ConditionOperand {
    Constant(i32),
    Tag(String),
}

/// A condition on a tag store.
#[derive(Debug)]
pub enum Condition {
    /// The tag is present, whatever it weighs.
    Has(String),
    /// Each operand is less than the next.
    Lt(Vec<ConditionOperand>),
    /// Each operand is at most the next.
    Lte(Vec<ConditionOperand>),
    /// Each operand equals the next.
    Eq(Vec<ConditionOperand>),
    /// Each operand differs from the next.
    Ne(Vec<ConditionOperand>),
    /// Each operand is at least the next.
    Gte(Vec<ConditionOperand>),
    /// Each operand is greater than the next.
    Gt(Vec<ConditionOperand>),
    /// All of the conditions hold.
    And(Vec<Condition>),
    /// One of the conditions holds.
    Or(Vec<Condition>),
    /// The condition does not hold.
    Not(Box<Condition>),
}

impl ConditionOperand {
    /// What the operand stands for in `tags`: the number itself, or the tag's weight.
    pub open spec fn resolve(self, tags: TagMap) -> int {
        match self {
            ConditionOperand::Constant(value) => value as int,
            ConditionOperand::Tag(name) => weight(tags, name@),
        }
    }
}

/// The relation `rel` holds between the operand at `i` and the one after it.
pub open spec fn linked(
    tags: TagMap,
    args: Seq<ConditionOperand>,
    rel: spec_fn(int, int) -> bool,
    i: int,
) -> bool {
    rel(args[i].resolve(tags), args[i + 1].resolve(tags))
}

/// The relation `rel` holds between every operand and the one after it.
pub open spec fn chain(
    tags: TagMap,
    args: Seq<ConditionOperand>,
    rel: spec_fn(int, int) -> bool,
) -> bool {
    forall|i: int| 0 <= i < args.len() - 1 ==> #[trigger] linked(tags, args, rel, i)
}

/// `op` may answer `answer` when it is asked about the operand at `i` and the one after it.
pub open spec fn answers<F: Fn(i32, i32) -> bool>(
    op: F,
    tags: TagMap,
    args: Seq<ConditionOperand>,
    i: int,
    answer: bool,
) -> bool {
    op.ensures((args[i].resolve(tags) as i32, args[i + 1].resolve(tags) as i32), answer)
}

impl Condition {
    /// Whether the condition holds of `tags`.
    pub open spec fn holds(self, tags: TagMap) -> bool
        decreases self,
    {
        match self {
            Condition::Has(name) => tags.contains_key(name@),
            Condition::Lt(args) => chain(tags, args@, |a: int, b: int| a < b),
            Condition::Lte(args) => chain(tags, args@, |a: int, b: int| a <= b),
            Condition::Eq(args) => chain(tags, args@, |a: int, b: int| a == b),
            Condition::Ne(args) => chain(tags, args@, |a: int, b: int| a != b),
            Condition::Gte(args) => chain(tags, args@, |a: int, b: int| a >= b),
            Condition::Gt(args) => chain(tags, args@, |a: int, b: int| a > b),
            Condition::And(conds) => forall|i: int|
                0 <= i < conds.len() ==> (#[trigger] conds[i]).holds(tags),
            Condition::Or(conds) => exists|i: int|
                0 <= i < conds.len() && (#[trigger] conds[i]).holds(tags),
            Condition::Not(inner) => !inner.holds(tags),
        }
    }
}

/// Resolves the operands against `tags` and tests `op` on every operand and the one
/// after it, from the left, until `op` answers no.
pub fn perform_operation<F: Fn(i32, i32) -> bool>(
    tags: &Tags,
    args: &[ConditionOperand],
    op: F,
) -> (ok: bool)
    requires
        forall|a: i32, b: i32| op.requires((a, b)),
    ensures
        ok ==> forall|i: int| 0 <= i < args@.len() - 1 ==> #[trigger] answers(op, tags@, args@, i, true),
        !ok ==> exists|i: int| 0 <= i < args@.len() - 1 && #[trigger] answers(op, tags@, args@, i, false),
{
    let mut maybe_last: Option<i32> = None;
    let mut i: usize = 0;
    while i < args.len()
        invariant
            i <= args@.len(),
            forall|a: i32, b: i32| op.requires((a, b)),
            i == 0 ==> maybe_last is None,
            i > 0 ==> maybe_last == Some(args@[i - 1].resolve(tags@) as i32),
            forall|j: int| 0 <= j < i - 1 ==> #[trigger] answers(op, tags@, args@, j, true),
        decreases args@.len() - i,
    {
        let arg = match &args[i] {
            ConditionOperand::Constant(value) => *value,
            ConditionOperand::Tag(name) => tags.value(name.as_str()),
        };
        if let Some(last) = maybe_last {
            let answer = op(last, arg);
            assert(answers(op, tags@, args@, i - 1, answer));
            if !answer {
                return false;
            }
        }
        maybe_last = Some(arg);
        i += 1;
    }
    true
}

fn less(a: i32, b: i32) -> (r: bool)
    ensures
        r == (a < b),
{
    a < b
}

fn less_or_equal(a: i32, b: i32) -> (r: bool)
    ensures
        r == (a <= b),
{
    a <= b
}

fn equal(a: i32, b: i32) -> (r: bool)
    ensures
        r == (a == b),
{
    a == b
}

fn not_equal(a: i32, b: i32) -> (r: bool)
    ensures
        r == (a != b),
{
    a != b
}

fn greater_or_equal(a: i32, b: i32) -> (r: bool)
    ensures
        r == (a >= b),
{
    a >= b
}

fn greater(a: i32, b: i32) -> (r: bool)
    ensures
        r == (a > b),
{
    a > b
}

/// Whether every condition of the list holds of `tags`.
fn check_all(conds: &Vec<Condition>, tags: &Tags) -> (ok: bool)
    ensures
        ok == forall|i: int| 0 <= i < conds.len() ==> (#[trigger] conds[i]).holds(tags@),
    decreases conds,
{
    let mut i: usize = 0;
    while i < conds.len()
        invariant
            i <= conds.len(),
            forall|j: int| 0 <= j < i ==> (#[trigger] conds[j]).holds(tags@),
        decreases conds.len() - i,
    {
        if !conds[i].check(tags) {
            assert(!conds[i as int].holds(tags@));
            return false;
        }
        i += 1;
    }
    true
}

/// Whether one condition of the list holds of `tags`.
fn check_any(conds: &Vec<Condition>, tags: &Tags) -> (ok: bool)
    ensures
        ok == exists|i: int| 0 <= i < conds.len() && (#[trigger] conds[i]).holds(tags@),
    decreases conds,
{
    let mut i: usize = 0;
    while i < conds.len()
        invariant
            i <= conds.len(),
            forall|j: int| 0 <= j < i ==> !(#[trigger] conds[j]).holds(tags@),
        decreases conds.len() - i,
    {
        if conds[i].check(tags) {
            assert(conds[i as int].holds(tags@));
            return true;
        }
        i += 1;
    }
    false
}

/// Where `op` decides the relation `rel` on 32-bit integers, what `perform_operation`
/// answers is whether `rel` holds between every operand and the one after it.
pub proof fn lemma_chain<F: Fn(i32, i32) -> bool>(
    tags: TagMap,
    args: Seq<ConditionOperand>,
    op: F,
    rel: spec_fn(int, int) -> bool,
    ok: bool,
)
    requires
        fits(tags),
        forall|a: i32, b: i32, r: bool| #[trigger] op.ensures((a, b), r) ==> r == rel(a as int, b as int),
        ok ==> forall|i: int| 0 <= i < args.len() - 1 ==> #[trigger] answers(op, tags, args, i, true),
        !ok ==> exists|i: int| 0 <= i < args.len() - 1 && #[trigger] answers(op, tags, args, i, false),
    ensures
        ok == chain(tags, args, rel),
{
    assert forall|i: int| 0 <= i < args.len() implies i32::MIN <= #[trigger] args[i].resolve(
        tags,
    ) <= i32::MAX by {
        match args[i] {
            ConditionOperand::Constant(value) => {},
            ConditionOperand::Tag(name) => {
                if tags.contains_key(name@) {
                }
            },
        }
    }
    if ok {
        assert forall|i: int| 0 <= i < args.len() - 1 implies #[trigger] linked(
            tags,
            args,
            rel,
            i,
        ) by {
            assert(answers(op, tags, args, i, true));
            assert(i32::MIN <= args[i].resolve(tags) <= i32::MAX);
            assert(i32::MIN <= args[i + 1].resolve(tags) <= i32::MAX);
        }
    } else {
        let i = choose|i: int| 0 <= i < args.len() - 1 && #[trigger] answers(op, tags, args, i, false);
        assert(i32::MIN <= args[i].resolve(tags) <= i32::MAX);
        assert(i32::MIN <= args[i + 1].resolve(tags) <= i32::MAX);
        assert(!linked(tags, args, rel, i));
    }
}

impl Condition {
    /// Evaluates the condition on `tags`.
    pub fn check(&self, tags: &Tags) -> (ok: bool)
        ensures
            ok == self.holds(tags@),
        decreases self,
    {
        proof {
            tags.lemma_fits();
        }
        match self {
            Condition::Has(tag) => tags.has(tag.as_str()),
            Condition::Lt(args) => {
                let ok = perform_operation(tags, args.as_slice(), less);
                proof {
                    lemma_chain(tags@, args@, less, |a: int, b: int| a < b, ok);
                }
                ok
            },
            Condition::Lte(args) => {
                let ok = perform_operation(tags, args.as_slice(), less_or_equal);
                proof {
                    lemma_chain(tags@, args@, less_or_equal, |a: int, b: int| a <= b, ok);
                }
                ok
            },
            Condition::Eq(args) => {
                let ok = perform_operation(tags, args.as_slice(), equal);
                proof {
                    lemma_chain(tags@, args@, equal, |a: int, b: int| a == b, ok);
                }
                ok
            },
            Condition::Ne(args) => {
                let ok = perform_operation(tags, args.as_slice(), not_equal);
                proof {
                    lemma_chain(tags@, args@, not_equal, |a: int, b: int| a != b, ok);
                }
                ok
            },
            Condition::Gte(args) => {
                let ok = perform_operation(tags, args.as_slice(), greater_or_equal);
                proof {
                    lemma_chain(tags@, args@, greater_or_equal, |a: int, b: int| a >= b, ok);
                }
                ok
            },
            Condition::Gt(args) => {
                let ok = perform_operation(tags, args.as_slice(), greater);
                proof {
                    lemma_chain(tags@, args@, greater, |a: int, b: int| a > b, ok);
                }
                ok
            },
            Condition::And(conds) => check_all(conds, tags),
            Condition::Or(conds) => check_any(conds, tags),
            Condition::Not(inner) => !inner.check(tags),
        }
    }
}

/// Negating a condition twice gives the condition back.
pub proof fn lemma_not_not(cond: Condition, tags: TagMap)
    ensures
        Condition::Not(Box::new(Condition::Not(Box::new(cond)))).holds(tags) == cond.holds(tags),
{
    reveal_with_fuel(Condition::holds, 3);
}

/// A conjunction of nothing holds, and a disjunction of nothing does not.
pub proof fn lemma_empty_lists(conds: Vec<Condition>, tags: TagMap)
    requires
        conds@.len() == 0,
    ensures
        Condition::And(conds).holds(tags),
        !Condition::Or(conds).holds(tags),
{
}

} // verus!
