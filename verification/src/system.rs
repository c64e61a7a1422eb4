use vstd::prelude::*;
use std::collections::{HashMap, HashSet};
use vstd::seq_lib::{commutative_foldl, lemma_fold_left_permutation};
use vstd::std_specs::iter::IteratorSpec;
use crate::sums::{
    fits, keys_of, lemma_part_step, lemma_part_whole, lemma_walk, merged, part, walks, weight,
    widened,
};
use crate::table::{filled, fresh, Table};
use crate::tags::{Condition, Tags};
use crate::util::same_text;

verus! {

broadcast use vstd::std_specs::hash::group_hash_axioms;

/// What a selection changes about a character, as a mathematical object.
#[verifier::ext_equal]
pub struct ModsView {
    /// The abilities that the character may not have.
    pub spells_banned: Set<u32>,
    /// The abilities that the character is given.
    pub spells: Set<u32>,
    /// What is added to each skill.
    pub skills: Map<u32, int>,
    /// How many of each item are added.
    pub items: Map<u32, int>,
    /// What is added to the money.
    pub money: int,
    /// What is added to the level.
    pub level: int,
}

impl ModsView {
    /// No change at all.
    pub open spec fn empty() -> ModsView {
        ModsView {
            spells_banned: Set::empty(),
            spells: Set::empty(),
            skills: Map::empty(),
            items: Map::empty(),
            money: 0,
            level: 0,
        }
    }

    /// Both changes together: the sets united, the maps and the numbers added up.
    pub open spec fn merge(self, other: ModsView) -> ModsView {
        ModsView {
            spells_banned: self.spells_banned.union(other.spells_banned),
            spells: self.spells.union(other.spells),
            skills: merged(self.skills, other.skills),
            items: merged(self.items, other.items),
            money: self.money + other.money,
            level: self.level + other.level,
        }
    }

    /// Every number is a 32-bit signed integer.
    pub open spec fn fits(self) -> bool {
        &&& fits(self.skills)
        &&& fits(self.items)
        &&& i32::MIN <= self.money <= i32::MAX
        &&& i32::MIN <= self.level <= i32::MAX
    }
}

/// All of the changes together, merged from the first on.
pub open spec fn total_mods(parts: Seq<ModsView>) -> ModsView
    decreases parts.len(),
{
    if parts.len() == 0 {
        ModsView::empty()
    } else {
        total_mods(parts.drop_last()).merge(parts.last())
    }
}

/// Merging `parts` one after the other never leaves the 32-bit range.
pub open spec fn totals_fit(parts: Seq<ModsView>) -> bool {
    forall|n: int| 0 <= n <= parts.len() ==> (#[trigger] total_mods(parts.take(n))).fits()
}

/// The changes as mathematical objects.
pub open spec fn mods_views(parts: Seq<&Mods>) -> Seq<ModsView> {
    Seq::new(parts.len(), |i: int| parts[i]@)
}

/// Merging is commutative.
pub proof fn lemma_merge_commutative(a: ModsView, b: ModsView)
    ensures
        a.merge(b) == b.merge(a),
{
    assert(a.merge(b) =~~= b.merge(a));
}

/// Merging is associative.
pub proof fn lemma_merge_associative(a: ModsView, b: ModsView, c: ModsView)
    ensures
        a.merge(b).merge(c) == a.merge(b.merge(c)),
{
    assert(a.merge(b).merge(c) =~~= a.merge(b.merge(c)));
}

/// No change is neutral for merging.
pub proof fn lemma_merge_empty(a: ModsView)
    ensures
        a.merge(ModsView::empty()) == a,
        ModsView::empty().merge(a) == a,
{
    assert(a.merge(ModsView::empty()) =~~= a);
    assert(ModsView::empty().merge(a) =~~= a);
}

/// All of the changes together is what folding them into no change gives.
proof fn lemma_total_mods_folds(parts: Seq<ModsView>)
    ensures
        total_mods(parts) == parts.fold_left(
            ModsView::empty(),
            |sum: ModsView, part: ModsView| sum.merge(part),
        ),
    decreases parts.len(),
{
    if parts.len() > 0 {
        lemma_total_mods_folds(parts.drop_last());
    }
}

/// All of the changes together do not depend on their order.
pub proof fn lemma_total_mods_any_order(parts: Seq<ModsView>, others: Seq<ModsView>)
    requires
        parts.to_multiset() == others.to_multiset(),
    ensures
        total_mods(parts) == total_mods(others),
{
    let f = |sum: ModsView, part: ModsView| sum.merge(part);
    assert(commutative_foldl(f)) by {
        assert forall|x: ModsView, y: ModsView, v: ModsView| #[trigger]
            f(f(v, x), y) == f(f(v, y), x) by {
            assert(v.merge(x).merge(y) =~~= v.merge(y).merge(x));
        }
    }
    lemma_total_mods_folds(parts);
    lemma_total_mods_folds(others);
    lemma_fold_left_permutation(parts, others, f, ModsView::empty());
}

/// What a selection changes about a character.
#[derive(Debug)]
pub struct Mods {
    /// The abilities that the character may not have.
    pub spells_banned: HashSet<u32>,
    /// The abilities that the character is given.
    pub spells: HashSet<u32>,
    /// What is added to each skill.
    pub skills: HashMap<u32, i32>,
    /// How many of each item are added.
    pub items: HashMap<u32, i32>,
    /// What is added to the money.
    pub money: i32,
    /// What is added to the level.
    pub level: i32,
}

impl View for Mods {
    type V = ModsView;

    open spec fn view(&self) -> ModsView {
        ModsView {
            spells_banned: self.spells_banned@,
            spells: self.spells@,
            skills: widened(self.skills@),
            items: widened(self.items@),
            money: self.money as int,
            level: self.level as int,
        }
    }
}

/// Adds to each weight of `into` the weight that `from` holds for the same key.
fn sum_in(into: &mut HashMap<u32, i32>, from: &HashMap<u32, i32>)
    requires
        fits(merged(widened(old(into)@), widened(from@))),
    ensures
        widened(final(into)@) == merged(widened(old(into)@), widened(from@)),
{
    let ghost base = widened(into@);
    let ghost more = widened(from@);
    let ghost pairs = from.iter().remaining();
    let ghost keys = keys_of(pairs);
    let ghost mut done: int = 0;
    assert(widened(into@) =~= merged(base, part(more, keys, 0)));
    for pair in it: from.iter()
        invariant
            base == widened(old(into)@),
            more == widened(from@),
            fits(merged(base, more)),
            it.seq() == pairs,
            keys == keys_of(pairs),
            walks(pairs, from@),
            done == it.index(),
            widened(into@) == merged(base, part(more, keys, done)),
    {
        let (key, count) = pair;
        proof {
            lemma_walk(pairs, from@);
            assert(keys[done] == *key);
            lemma_part_step(base, more, keys, done);
            assert(merged(base, more).contains_key(*key));
        }
        let current: i32 = match into.get(key) {
            Some(w) => *w,
            None => 0,
        };
        assert(current == weight(widened(into@), *key));
        let ghost before = widened(into@);
        into.insert(*key, current + *count);
        proof {
            assert(widened(into@) =~= before.insert(*key, (current + *count) as int));
            done = done + 1;
        }
    }
    proof {
        lemma_walk(pairs, from@);
        lemma_part_whole(more, keys);
    }
}

/// Whether the weights of `from` can be added to those of `into` without one of
/// them leaving the 32-bit range.
fn can_sum(into: &HashMap<u32, i32>, from: &HashMap<u32, i32>) -> (ok: bool)
    ensures
        ok == fits(merged(widened(into@), widened(from@))),
{
    let ghost base = widened(into@);
    let ghost more = widened(from@);
    let ghost pairs = from.iter().remaining();
    let ghost keys = keys_of(pairs);
    let ghost mut done: int = 0;
    assert(merged(base, part(more, keys, 0)) =~= base);
    for pair in it: from.iter()
        invariant
            base == widened(into@),
            more == widened(from@),
            it.seq() == pairs,
            keys == keys_of(pairs),
            walks(pairs, from@),
            done == it.index(),
            fits(merged(base, part(more, keys, done))),
    {
        let (key, count) = pair;
        proof {
            lemma_walk(pairs, from@);
            assert(keys[done] == *key);
            lemma_part_step(base, more, keys, done);
        }
        let current: i32 = match into.get(key) {
            Some(w) => *w,
            None => 0,
        };
        let sum = current as i64 + *count as i64;
        if sum < i32::MIN as i64 || sum > i32::MAX as i64 {
            assert(merged(base, more).contains_key(*key));
            return false;
        }
        proof {
            done = done + 1;
        }
    }
    proof {
        lemma_walk(pairs, from@);
        lemma_part_whole(more, keys);
    }
    true
}

/// The keys among the first `n` that a walk through a set yields.
spec fn seen(keys: Seq<&u32>, n: int) -> Set<u32> {
    Set::new(|k: u32| exists|j: int| 0 <= j < n && j < keys.len() && *(#[trigger] keys[j]) == k)
}

/// Puts every key of `from` into `into`.
fn union_in(into: &mut HashSet<u32>, from: &HashSet<u32>)
    ensures
        final(into)@ == old(into)@.union(from@),
{
    let ghost keys = from.iter().remaining();
    let ghost mut done: int = 0;
    assert(into@ =~= old(into)@.union(seen(keys, 0)));
    for key in it: from.iter()
        invariant
            it.seq() == keys,
            keys.unref().to_set() == from@,
            done == it.index(),
            into@ == old(into)@.union(seen(keys, done)),
    {
        let ghost before = into@;
        into.insert(*key);
        proof {
            assert(keys[done] == key);
            assert(seen(keys, done + 1) =~= seen(keys, done).insert(*key)) by {
                assert forall|k: u32| seen(keys, done).insert(*key).contains(k) implies seen(
                    keys,
                    done + 1,
                ).contains(k) by {
                    if k == *key {
                        assert(*keys[done] == k);
                    } else {
                        let j = choose|j: int|
                            0 <= j < done && j < keys.len() && *(#[trigger] keys[j]) == k;
                        assert(*keys[j] == k);
                    }
                }
            }
            assert(into@ =~= old(into)@.union(seen(keys, done + 1)));
            done = done + 1;
        }
    }
    proof {
        assert(seen(keys, keys.len() as int) =~= from@) by {
            assert forall|k: u32| from@.contains(k) implies seen(keys, keys.len() as int).contains(
                k,
            ) by {
                assert(keys.unref().to_set().contains(k));
                assert(keys.unref().contains(k));
                let j = choose|j: int| 0 <= j < keys.unref().len() && keys.unref()[j] == k;
                assert(*keys[j] == k);
            }
            assert forall|k: u32| seen(keys, keys.len() as int).contains(k) implies from@.contains(
                k,
            ) by {
                let j = choose|j: int|
                    0 <= j < keys.len() && j < keys.len() && *(#[trigger] keys[j]) == k;
                assert(keys.unref()[j] == k);
                assert(keys.unref().contains(k));
            }
        }
    }
}

impl Mods {
    /// No change at all.
    pub fn new() -> (mods: Self)
        ensures
            mods@ == ModsView::empty(),
    {
        let mods = Mods {
            spells_banned: HashSet::new(),
            spells: HashSet::new(),
            skills: HashMap::new(),
            items: HashMap::new(),
            money: 0,
            level: 0,
        };
        assert(mods@ =~~= ModsView::empty());
        mods
    }

    /// Merges all of `mods`, from the first on; nothing where a number would leave
    /// the 32-bit range on the way.
    pub fn checked_join(mods: &[&Mods]) -> (out: Option<Mods>)
        ensures
            match out {
                Some(sum) => totals_fit(mods_views(mods@)) && sum@ == total_mods(mods_views(mods@)),
                None => !totals_fit(mods_views(mods@)),
            },
    {
        let ghost views = mods_views(mods@);
        let mut sum = Mods::new();
        let mut i: usize = 0;
        proof {
            assert(views.take(0) =~= Seq::<ModsView>::empty());
        }
        while i < mods.len()
            invariant
                i <= mods@.len(),
                views == mods_views(mods@),
                sum@ == total_mods(views.take(i as int)),
                forall|n: int| 0 <= n <= i ==> (#[trigger] total_mods(views.take(n))).fits(),
            decreases mods@.len() - i,
        {
            proof {
                assert(views.take(i + 1).drop_last() =~= views.take(i as int));
                assert(views.take(i + 1).last() == mods@[i as int]@);
            }
            if !sum.can_merge(mods[i]) {
                assert(!total_mods(views.take(i + 1)).fits());
                return None;
            }
            sum.merge_in(mods[i]);
            i += 1;
        }
        assert(views.take(mods@.len() as int) =~= views);
        Some(sum)
    }

    /// Merges all of `mods`, from the first on.
    pub fn join(mods: &[&Mods]) -> (sum: Mods)
        requires
            totals_fit(mods_views(mods@)),
        ensures
            sum@ == total_mods(mods_views(mods@)),
    {
        Mods::checked_join(mods).unwrap()
    }

    /// Whether `other` can be merged in without a number leaving the 32-bit range.
    pub fn can_merge(&self, other: &Mods) -> (ok: bool)
        ensures
            ok == self@.merge(other@).fits(),
    {
        let money = self.money as i64 + other.money as i64;
        let level = self.level as i64 + other.level as i64;
        can_sum(&self.skills, &other.skills) && can_sum(&self.items, &other.items) && i32::MIN as i64
            <= money && money <= i32::MAX as i64 && i32::MIN as i64 <= level && level
            <= i32::MAX as i64
    }

    /// Merges `other` in: the sets are united, the maps and the numbers added up.
    pub fn merge_in(&mut self, other: &Mods)
        requires
            old(self)@.merge(other@).fits(),
        ensures
            final(self)@ == old(self)@.merge(other@),
    {
        union_in(&mut self.spells_banned, &other.spells_banned);
        union_in(&mut self.spells, &other.spells);
        sum_in(&mut self.skills, &other.skills);
        sum_in(&mut self.items, &other.items);
        self.money = self.money + other.money;
        self.level = self.level + other.level;
        assert(self@ =~~= old(self)@.merge(other@));
    }
}

/// Which identifiers an entity admits beside it.
#[derive(Debug)]
pub enum Filter {
    /// Any identifier.
    Pass,
    /// Only the identifiers listed.
    Allow(Vec<String>),
    /// Any identifier but those listed.
    Deny(Vec<String>),
}

/// `id` is one of `list`.
pub open spec fn lists(list: Seq<String>, id: Seq<char>) -> bool {
    exists|i: int| 0 <= i < list.len() && (#[trigger] list[i])@ == id
}

fn has_id(list: &Vec<String>, id: &str) -> (found: bool)
    ensures
        found == lists(list@, id@),
{
    let mut i: usize = 0;
    while i < list.len()
        invariant
            i <= list.len(),
            forall|j: int| 0 <= j < i ==> (#[trigger] list@[j])@ != id@,
        decreases list.len() - i,
    {
        if same_text(list[i].as_str(), id) {
            return true;
        }
        i += 1;
    }
    false
}

impl Filter {
    /// Whether the filter admits `id`.
    pub open spec fn admits(self, id: Seq<char>) -> bool {
        match self {
            Filter::Pass => true,
            Filter::Allow(list) => lists(list@, id),
            Filter::Deny(list) => !lists(list@, id),
        }
    }

    /// Tests `id` against the filter.
    pub fn matches(&self, id: &str) -> (ok: bool)
        ensures
            ok == self.admits(id@),
    {
        match self {
            Filter::Pass => true,
            Filter::Allow(list) => has_id(list, id),
            Filter::Deny(list) => !has_id(list, id),
        }
    }
}

/// What every entity of a catalog says of itself.
#[derive(Debug)]
pub struct Metadata {
    pub name: String,
    /// The name for a female character, where it differs.
    pub name_female: Option<String>,
    /// The description.
    pub info: Option<String>,
    /// Where the picture is kept.
    pub preview: Option<String>,
    /// The condition under which the entity may be chosen; none means always.
    pub requires: Option<Condition>,
    /// The tags that the entity contributes when it is chosen.
    pub provides: Tags,
    /// The place of the entity where its kind is listed.
    pub order: i32,
}

impl Metadata {
    /// Whether the entity may be chosen under `tags`.
    pub open spec fn allowed(self, tags: Map<Seq<char>, int>) -> bool {
        match self.requires {
            Some(cond) => cond.holds(tags),
            None => true,
        }
    }

    /// Tests the entity's condition on `tags`; an entity without one passes.
    pub fn check(&self, tags: &Tags) -> (ok: bool)
        ensures
            ok == self.allowed(tags@),
    {
        match &self.requires {
            Some(cond) => cond.check(tags),
            None => true,
        }
    }
}

/// A race of characters.
#[derive(Debug)]
pub struct Race {
    pub meta: Metadata,
    /// The number of the race in the game.
    pub game_id: u8,
    /// The genders that the race admits, by the names `male` and `female`.
    pub gender: Filter,
    /// The classes that the race admits.
    pub classes: Filter,
    pub mods: Mods,
}

/// A class of characters.
#[derive(Debug)]
pub struct Class {
    pub meta: Metadata,
    /// The number of the class in the game.
    pub game_id: u8,
    /// The genders that the class admits, by the names `male` and `female`.
    pub gender: Filter,
    /// The races that the class admits.
    pub races: Filter,
    pub mods: Mods,
}

/// A set of armor: the item in each slot, where there is one.
#[derive(Debug)]
pub struct Armor {
    pub meta: Metadata,
    pub head: Option<u32>,
    pub neck: Option<u32>,
    pub shoulders: Option<u32>,
    pub body: Option<u32>,
    pub chest: Option<u32>,
    pub waist: Option<u32>,
    pub legs: Option<u32>,
    pub feet: Option<u32>,
    pub wrists: Option<u32>,
    pub hands: Option<u32>,
    pub fingers: Vec<u32>,
    pub trinkets: Vec<u32>,
    pub back: Option<u32>,
    pub tabard: Option<u32>,
    pub bags: Vec<u32>,
    pub mods: Mods,
}

/// A set of weapons: the item in each hand, where there is one.
#[derive(Debug)]
pub struct Weapon {
    pub meta: Metadata,
    pub mainhand: Option<u32>,
    pub offhand: Option<u32>,
    pub ranged: Option<u32>,
    pub mods: Mods,
}

/// A trait that a character can have.
#[derive(Debug)]
pub struct Trait {
    pub meta: Metadata,
    /// What the trait costs of the budget that the form keeps.
    pub cost: i32,
    /// The group of which the form lets one trait be chosen.
    pub group: Option<String>,
    pub mods: Mods,
}

/// A point in the world. Each coordinate is the bit pattern of a 32-bit
/// floating-point number, which nothing here reads.
#[derive(Debug, Clone, Copy, PartialEq, Eq, Structural)]
pub struct Position {
    pub x: u32,
    pub y: u32,
    pub z: u32,
}

/// A place where a character starts. The orientation is the bit pattern of a
/// 32-bit floating-point number, as the coordinates of the position are.
#[derive(Debug)]
pub struct Location {
    pub meta: Metadata,
    pub map: u32,
    pub zone: u32,
    pub position: Position,
    pub orientation: u32,
    pub mods: Mods,
}

/// What every entity of a catalog can say of itself, whatever its kind.
pub trait Entity {
    /// The word for the kind of the entity.
    spec fn kind_word(&self) -> Seq<char>;

    /// What the entity says of itself.
    spec fn metadata(&self) -> Metadata;

    /// The word for the kind of the entity.
    fn kind(&self) -> (word: &'static str)
        ensures
            word@ == self.kind_word(),
    ;

    /// What the entity says of itself.
    fn info(&self) -> (meta: &Metadata)
        ensures
            *meta == self.metadata(),
    ;

    /// The name of the entity.
    fn name(&self) -> (name: &str)
        ensures
            name@ == self.metadata().name@,
    {
        self.info().name.as_str()
    }

    /// The description of the entity, if it has one.
    fn description(&self) -> (text: Option<&str>)
        ensures
            match text {
                Some(text) => self.metadata().info is Some && text@ == self.metadata().info->0@,
                None => self.metadata().info is None,
            },
    {
        match &self.info().info {
            Some(text) => Some(text.as_str()),
            None => None,
        }
    }

    /// Where the picture of the entity is kept, if it has one.
    fn preview(&self) -> (path: Option<&str>)
        ensures
            match path {
                Some(path) => self.metadata().preview is Some && path@
                    == self.metadata().preview->0@,
                None => self.metadata().preview is None,
            },
    {
        match &self.info().preview {
            Some(path) => Some(path.as_str()),
            None => None,
        }
    }
}

impl Entity for Race {
    open spec fn kind_word(&self) -> Seq<char> {
        "race"@
    }

    open spec fn metadata(&self) -> Metadata {
        self.meta
    }

    fn kind(&self) -> (word: &'static str) {
        "race"
    }

    fn info(&self) -> (meta: &Metadata) {
        &self.meta
    }
}

impl Entity for Class {
    open spec fn kind_word(&self) -> Seq<char> {
        "class"@
    }

    open spec fn metadata(&self) -> Metadata {
        self.meta
    }

    fn kind(&self) -> (word: &'static str) {
        "class"
    }

    fn info(&self) -> (meta: &Metadata) {
        &self.meta
    }
}

impl Entity for Armor {
    open spec fn kind_word(&self) -> Seq<char> {
        "armor"@
    }

    open spec fn metadata(&self) -> Metadata {
        self.meta
    }

    fn kind(&self) -> (word: &'static str) {
        "armor"
    }

    fn info(&self) -> (meta: &Metadata) {
        &self.meta
    }
}

impl Entity for Weapon {
    open spec fn kind_word(&self) -> Seq<char> {
        "weapon"@
    }

    open spec fn metadata(&self) -> Metadata {
        self.meta
    }

    fn kind(&self) -> (word: &'static str) {
        "weapon"
    }

    fn info(&self) -> (meta: &Metadata) {
        &self.meta
    }
}

impl Entity for Trait {
    open spec fn kind_word(&self) -> Seq<char> {
        "trait"@
    }

    open spec fn metadata(&self) -> Metadata {
        self.meta
    }

    fn kind(&self) -> (word: &'static str) {
        "trait"
    }

    fn info(&self) -> (meta: &Metadata) {
        &self.meta
    }
}

impl Entity for Location {
    open spec fn kind_word(&self) -> Seq<char> {
        "location"@
    }

    open spec fn metadata(&self) -> Metadata {
        self.meta
    }

    fn kind(&self) -> (word: &'static str) {
        "location"
    }

    fn info(&self) -> (meta: &Metadata) {
        &self.meta
    }
}

/// What the entities of a table say of themselves, in the order of the table.
pub open spec fn infos<E: Entity>(table: Table<E>) -> Seq<Metadata> {
    Seq::new(table.names().len(), |i: int| table@[table.names()[i]].metadata())
}

/// What the references point to.
pub open spec fn pointed(refs: Seq<&Metadata>) -> Seq<Metadata> {
    Seq::new(refs.len(), |i: int| *refs[i])
}

/// Adds what the entities of `table` say of themselves to `out`.
fn push_infos<'a, E: Entity>(out: &mut Vec<&'a Metadata>, table: &'a Table<E>)
    ensures
        pointed(final(out)@) == pointed(old(out)@) + infos(*table),
{
    let n = table.len();
    let mut i: usize = 0;
    assert(pointed(out@) =~= pointed(old(out)@) + infos(*table).take(0));
    while i < n
        invariant
            i <= n,
            n == table.names().len(),
            pointed(out@) == pointed(old(out)@) + infos(*table).take(i as int),
        decreases n - i,
    {
        let ghost before = out@;
        out.push(table.value_at(i).info());
        proof {
            assert(pointed(out@) =~= pointed(before).push(infos(*table)[i as int]));
            assert(infos(*table).take(i + 1) =~= infos(*table).take(i as int).push(
                infos(*table)[i as int],
            ));
            assert(pointed(out@) =~= pointed(old(out)@) + infos(*table).take(i + 1));
        }
        i += 1;
    }
    assert(infos(*table).take(n as int) =~= infos(*table));
}

/// The entities of a catalog as maps from identifier to entity, one for each kind.
#[verifier::ext_equal]
pub struct Catalog {
    pub race: Map<Seq<char>, Race>,
    pub class: Map<Seq<char>, Class>,
    pub armor: Map<Seq<char>, Armor>,
    pub weapon: Map<Seq<char>, Weapon>,
    pub traits: Map<Seq<char>, Trait>,
    pub location: Map<Seq<char>, Location>,
}

impl Catalog {
    /// The catalog filled up from `other`, kind by kind: what the catalog holds
    /// stays, and `other` gives only the identifiers that the catalog lacks.
    pub open spec fn filled(self, other: Catalog) -> Catalog {
        Catalog {
            race: filled(self.race, other.race),
            class: filled(self.class, other.class),
            armor: filled(self.armor, other.armor),
            weapon: filled(self.weapon, other.weapon),
            traits: filled(self.traits, other.traits),
            location: filled(self.location, other.location),
        }
    }
}

/// Filling a catalog up a second time from the same layer changes nothing.
pub proof fn lemma_catalog_filled_twice(first: Catalog, second: Catalog)
    ensures
        first.filled(second).filled(second) == first.filled(second),
{
    assert(first.filled(second).filled(second) =~~= first.filled(second));
}

/// A catalog filled up from itself is the catalog.
pub proof fn lemma_catalog_filled_self(layer: Catalog)
    ensures
        layer.filled(layer) == layer,
{
    assert(layer.filled(layer) =~~= layer);
}

/// Filling a catalog up changes no entity that it holds.
pub proof fn lemma_catalog_filled_keeps(first: Catalog, second: Catalog)
    ensures
        forall|id: Seq<char>| #[trigger]
            first.race.contains_key(id) ==> first.filled(second).race.contains_key(id)
                && first.filled(second).race[id] == first.race[id],
        forall|id: Seq<char>| #[trigger]
            first.class.contains_key(id) ==> first.filled(second).class.contains_key(id)
                && first.filled(second).class[id] == first.class[id],
        forall|id: Seq<char>| #[trigger]
            first.armor.contains_key(id) ==> first.filled(second).armor.contains_key(id)
                && first.filled(second).armor[id] == first.armor[id],
        forall|id: Seq<char>| #[trigger]
            first.weapon.contains_key(id) ==> first.filled(second).weapon.contains_key(id)
                && first.filled(second).weapon[id] == first.weapon[id],
        forall|id: Seq<char>| #[trigger]
            first.traits.contains_key(id) ==> first.filled(second).traits.contains_key(id)
                && first.filled(second).traits[id] == first.traits[id],
        forall|id: Seq<char>| #[trigger]
            first.location.contains_key(id) ==> first.filled(second).location.contains_key(id)
                && first.filled(second).location[id] == first.location[id],
{
}

/// The entities that can be chosen, by kind and identifier.
#[derive(Debug)]
pub struct System {
    pub race: Table<Race>,
    pub class: Table<Class>,
    pub armor: Table<Armor>,
    pub weapon: Table<Weapon>,
    pub traits: Table<Trait>,
    pub location: Table<Location>,
}

impl View for System {
    type V = Catalog;

    open spec fn view(&self) -> Catalog {
        Catalog {
            race: self.race@,
            class: self.class@,
            armor: self.armor@,
            weapon: self.weapon@,
            traits: self.traits@,
            location: self.location@,
        }
    }
}

/// The table holds nothing.
pub open spec fn blank<T>(table: Table<T>) -> bool {
    table@ == Map::<Seq<char>, T>::empty() && table.names() == Seq::<Seq<char>>::empty()
}

/// The identifiers of `after` are those of `before`, then those that `other` added, in its order.
pub open spec fn listed_after<T>(after: Table<T>, before: Table<T>, other: Table<T>) -> bool {
    after.names() == before.names() + fresh(other.names(), before@.dom())
}

impl System {
    /// A system without entities.
    pub fn new() -> (system: Self)
        ensures
            blank(system.race),
            blank(system.class),
            blank(system.armor),
            blank(system.weapon),
            blank(system.traits),
            blank(system.location),
    {
        System {
            race: Table::new(),
            class: Table::new(),
            armor: Table::new(),
            weapon: Table::new(),
            traits: Table::new(),
            location: Table::new(),
        }
    }

    /// What all the entities say of themselves: the races, the classes, the sets of
    /// armor, the sets of weapons, the traits and the locations, each kind in the
    /// order of its table.
    pub open spec fn all_infos(self) -> Seq<Metadata> {
        infos(self.race) + infos(self.class) + infos(self.armor) + infos(self.weapon) + infos(
            self.traits,
        ) + infos(self.location)
    }

    /// What all the entities say of themselves.
    pub fn info_iter(&self) -> (out: Vec<&Metadata>)
        ensures
            pointed(out@) == self.all_infos(),
    {
        let mut out: Vec<&Metadata> = Vec::new();
        assert(pointed(out@) =~= Seq::<Metadata>::empty());
        push_infos(&mut out, &self.race);
        push_infos(&mut out, &self.class);
        push_infos(&mut out, &self.armor);
        push_infos(&mut out, &self.weapon);
        push_infos(&mut out, &self.traits);
        push_infos(&mut out, &self.location);
        assert(pointed(out@) =~= self.all_infos());
        out
    }

    /// Fills the system up from `other`: an entity of `other` comes in only where the
    /// system has none under that identifier.
    pub fn merge_in(&mut self, other: System)
        ensures
            final(self)@ == old(self)@.filled(other@),
            listed_after(final(self).race, old(self).race, other.race),
            listed_after(final(self).class, old(self).class, other.class),
            listed_after(final(self).armor, old(self).armor, other.armor),
            listed_after(final(self).weapon, old(self).weapon, other.weapon),
            listed_after(final(self).traits, old(self).traits, other.traits),
            listed_after(final(self).location, old(self).location, other.location),
    {
        self.race.fill_from(other.race);
        self.class.fill_from(other.class);
        self.armor.fill_from(other.armor);
        self.weapon.fill_from(other.weapon);
        self.traits.fill_from(other.traits);
        self.location.fill_from(other.location);
    }
}

} // verus!
