use vstd::prelude::*;
use std::collections::{HashMap, HashSet};
use vstd::std_specs::iter::IteratorSpec;
use crate::campaign::{Campaign, Role, RoleKind};
use crate::error::{AppError, AppResult};
use crate::sums::{all_fit, keys_of, lemma_walk, total, walks, widened};
use crate::system::{
    mods_views, total_mods, totals_fit, Armor, Class, Location, Mods, ModsView, Position, Race,
    Trait, Weapon,
};
use crate::tags::{merge_all, tag_maps, TagMap, Tags};
use crate::util::{
    chars_of, decimal, prepare_name, prepare_name_extra, prepared_name, prepared_name_extra,
    push_decimal, string_of, text_of,
};

verus! {

broadcast use vstd::std_specs::hash::group_hash_axioms;

/// The number of equipment slots of a character.
pub const EQUIP_SLOTS: usize = 23;

/// The item in each equipment slot, where there is one.
pub type EquipArray = [Option<u32>; EQUIP_SLOTS];

/// The item at place `n` of a slot that takes several, counted from 0.
pub open spec fn nth(items: Seq<u32>, n: int) -> Option<u32> {
    if n < items.len() {
        Some(items[n])
    } else {
        None
    }
}

fn item(items: &Vec<u32>, n: usize) -> (found: Option<u32>)
    ensures
        found == nth(items@, n as int),
{
    if n < items.len() {
        Some(items[n])
    } else {
        None
    }
}

/// What the armor has in a slot, if there is armor.
pub open spec fn worn(armor: Option<Armor>, slot: spec_fn(Armor) -> Option<u32>) -> Option<u32> {
    match armor {
        Some(e) => slot(e),
        None => None,
    }
}

/// What the weapons have in a slot, if there are weapons.
pub open spec fn held(weapon: Option<Weapon>, slot: spec_fn(Weapon) -> Option<u32>) -> Option<
    u32,
> {
    match weapon {
        Some(e) => slot(e),
        None => None,
    }
}

/// The equipment that a set of armor and a set of weapons give, slot by slot.
pub open spec fn equipment(armor: Option<Armor>, weapon: Option<Weapon>) -> Seq<Option<u32>> {
    seq![
        worn(armor, |e: Armor| e.head),
        worn(armor, |e: Armor| e.neck),
        worn(armor, |e: Armor| e.shoulders),
        worn(armor, |e: Armor| e.body),
        worn(armor, |e: Armor| e.chest),
        worn(armor, |e: Armor| e.waist),
        worn(armor, |e: Armor| e.legs),
        worn(armor, |e: Armor| e.feet),
        worn(armor, |e: Armor| e.wrists),
        worn(armor, |e: Armor| e.hands),
        worn(armor, |e: Armor| nth(e.fingers@, 0)),
        worn(armor, |e: Armor| nth(e.fingers@, 1)),
        worn(armor, |e: Armor| nth(e.trinkets@, 0)),
        worn(armor, |e: Armor| nth(e.trinkets@, 1)),
        worn(armor, |e: Armor| e.back),
        held(weapon, |e: Weapon| e.mainhand),
        held(weapon, |e: Weapon| e.offhand),
        held(weapon, |e: Weapon| e.ranged),
        worn(armor, |e: Armor| e.tabard),
        worn(armor, |e: Armor| nth(e.bags@, 0)),
        worn(armor, |e: Armor| nth(e.bags@, 1)),
        worn(armor, |e: Armor| nth(e.bags@, 2)),
        worn(armor, |e: Armor| nth(e.bags@, 3)),
    ]
}

/// The entity behind a reference that may be missing.
pub open spec fn pointee<T>(entity: Option<&T>) -> Option<T> {
    match entity {
        Some(e) => Some(*e),
        None => None,
    }
}

/// Lays the chosen armor and weapons out over the equipment slots.
pub fn make_equip_array(armor: Option<&Armor>, weapon: Option<&Weapon>) -> (slots: EquipArray)
    ensures
        slots@ == equipment(pointee(armor), pointee(weapon)),
{
    let mut slots: EquipArray = [None; EQUIP_SLOTS];
    if let Some(e) = armor {
        slots[0] = e.head;
        slots[1] = e.neck;
        slots[2] = e.shoulders;
        slots[3] = e.body;
        slots[4] = e.chest;
        slots[5] = e.waist;
        slots[6] = e.legs;
        slots[7] = e.feet;
        slots[8] = e.wrists;
        slots[9] = e.hands;
        slots[10] = item(&e.fingers, 0);
        slots[11] = item(&e.fingers, 1);
        slots[12] = item(&e.trinkets, 0);
        slots[13] = item(&e.trinkets, 1);
        slots[14] = e.back;
        slots[18] = e.tabard;
        slots[19] = item(&e.bags, 0);
        slots[20] = item(&e.bags, 1);
        slots[21] = item(&e.bags, 2);
        slots[22] = item(&e.bags, 3);
    }
    if let Some(e) = weapon {
        slots[15] = e.mainhand;
        slots[16] = e.offhand;
        slots[17] = e.ranged;
    }
    assert(slots@ =~= equipment(pointee(armor), pointee(weapon)));
    slots
}

/// The numbers in decimal, one space between each and the next.
pub open spec fn joined(numbers: Seq<u32>) -> Seq<char>
    decreases numbers.len(),
{
    if numbers.len() == 0 {
        Seq::empty()
    } else if numbers.len() == 1 {
        decimal(numbers[0] as nat)
    } else {
        joined(numbers.drop_last()).push(' ') + decimal(numbers.last() as nat)
    }
}

/// Writes numbers one after the other, with a space between them.
pub struct StringBuilder {
    output: Vec<char>,
    started: bool,
}

impl StringBuilder {
    /// What has been written so far.
    pub closed spec fn text(&self) -> Seq<char> {
        self.output@
    }

    /// Whether a number has been written.
    pub closed spec fn started(&self) -> bool {
        self.started
    }

    /// A builder that has written nothing.
    pub fn new() -> (builder: Self)
        ensures
            builder.text() == Seq::<char>::empty(),
            !builder.started(),
    {
        StringBuilder { output: Vec::new(), started: false }
    }

    /// Writes `value` in decimal, after a space where a number was written before.
    pub fn write(&mut self, value: u32)
        ensures
            final(self).started(),
            final(self).text() == if old(self).started() {
                old(self).text().push(' ') + decimal(value as nat)
            } else {
                old(self).text() + decimal(value as nat)
            },
    {
        if self.started {
            self.output.push(' ');
        }
        push_decimal(&mut self.output, value);
        self.started = true;
    }

    /// What was written.
    pub fn result(self) -> (out: String)
        ensures
            out@ == self.text(),
    {
        string_of(&self.output)
    }

    /// What was written, if a number was.
    pub fn result_option(self) -> (out: Option<String>)
        ensures
            match out {
                Some(text) => self.started() && text@ == self.text(),
                None => !self.started(),
            },
    {
        if self.started {
            Some(string_of(&self.output))
        } else {
            None
        }
    }
}

/// The builder has written exactly `numbers`.
pub open spec fn wrote(builder: StringBuilder, numbers: Seq<u32>) -> bool {
    builder.text() == joined(numbers) && builder.started() == (numbers.len() > 0)
}

/// After one more number the builder has written the numbers with that one appended.
proof fn lemma_wrote(before: StringBuilder, after: StringBuilder, numbers: Seq<u32>, value: u32)
    requires
        wrote(before, numbers),
        after.started(),
        after.text() == if before.started() {
            before.text().push(' ') + decimal(value as nat)
        } else {
            before.text() + decimal(value as nat)
        },
    ensures
        wrote(after, numbers.push(value)),
{
    let next = numbers.push(value);
    assert(next.drop_last() =~= numbers);
    assert(next.last() == value);
    if numbers.len() == 0 {
        assert(Seq::<char>::empty() + decimal(value as nat) =~= decimal(value as nat));
    }
}

/// The number that stands for a slot: the item, or 0 for an empty slot.
pub open spec fn slot_number(slot: Option<u32>) -> u32 {
    match slot {
        Some(id) => id,
        None => 0,
    }
}

/// Writes the equipment slots as decimal numbers with a space between them, 0 for
/// an empty slot.
pub fn make_equip_string(input: &EquipArray) -> (out: String)
    ensures
        out@ == joined(input@.map_values(|slot: Option<u32>| slot_number(slot))),
{
    let ghost numbers = input@.map_values(|slot: Option<u32>| slot_number(slot));
    let mut b = StringBuilder::new();
    let mut i: usize = 0;
    while i < EQUIP_SLOTS
        invariant
            i <= EQUIP_SLOTS,
            numbers == input@.map_values(|slot: Option<u32>| slot_number(slot)),
            wrote(b, numbers.take(i as int)),
        decreases EQUIP_SLOTS - i,
    {
        let ghost before = b;
        let value: u32 = match input[i] {
            Some(id) => id,
            None => 0,
        };
        b.write(value);
        proof {
            lemma_wrote(before, b, numbers.take(i as int), value);
            assert(numbers.take(i + 1) =~= numbers.take(i as int).push(value));
        }
        i += 1;
    }
    assert(numbers.take(EQUIP_SLOTS as int) =~= numbers);
    b.result()
}

/// `order` lists every member of `set` once.
pub open spec fn lists_set(order: Seq<u32>, set: Set<u32>) -> bool {
    order.no_duplicates() && order.to_set() == set
}

/// Writes the identifiers of a set as decimal numbers with a space between them, in
/// the order in which the set hands them out; nothing for the empty set.
pub fn make_ids_string(input: &HashSet<u32>) -> (out: Option<String>)
    ensures
        match out {
            Some(text) => exists|order: Seq<u32>|
                lists_set(order, input@) && order.len() > 0 && text@ == #[trigger] joined(order),
            None => input@.len() == 0,
        },
{
    let ghost keys = input.iter().remaining();
    let ghost order = keys.unref();
    let mut b = StringBuilder::new();
    for id in it: input.iter()
        invariant
            it.seq() == keys,
            order == keys.unref(),
            wrote(b, order.take(it.index())),
    {
        let ghost before = b;
        b.write(*id);
        proof {
            lemma_wrote(before, b, order.take(it.index()), *id);
            assert(order.take(it.index() + 1) =~= order.take(it.index()).push(*id));
        }
    }
    proof {
        assert(order.take(order.len() as int) =~= order);
        assert(order.no_duplicates()) by {
            assert forall|i: int, j: int| 0 <= i < order.len() && 0 <= j < order.len() && i
                != j implies order[i] != order[j] by {
                if order[i] == order[j] {
                    assert(keys[i] == keys[j]);
                }
            }
        }
    }
    b.result_option()
}

/// The keys of `order`, each followed by what `m` holds for it.
pub open spec fn alternating(order: Seq<u32>, m: Map<u32, u32>) -> Seq<u32>
    decreases order.len(),
{
    if order.len() == 0 {
        Seq::empty()
    } else {
        alternating(order.drop_last(), m).push(order.last()).push(m[order.last()])
    }
}

/// Writes each key of a map and its value as decimal numbers with a space between
/// them, in the order in which the map hands the keys out; nothing for the empty map.
pub fn make_pairs_string(input: &HashMap<u32, u32>) -> (out: Option<String>)
    ensures
        match out {
            Some(text) => exists|order: Seq<u32>|
                lists_set(order, input@.dom()) && order.len() > 0 && text@ == joined(
                    #[trigger] alternating(order, input@),
                ),
            None => input@.len() == 0,
        },
{
    let ghost pairs = input.iter().remaining();
    let ghost order = keys_of(pairs);
    let mut b = StringBuilder::new();
    for pair in it: input.iter()
        invariant
            it.seq() == pairs,
            order == keys_of(pairs),
            walks(pairs, input@),
            wrote(b, alternating(order.take(it.index()), input@)),
    {
        let (id, value) = pair;
        let ghost before = b;
        let ghost so_far = alternating(order.take(it.index()), input@);
        b.write(*id);
        let ghost between = b;
        b.write(*value);
        proof {
            lemma_walk(pairs, input@);
            assert(order[it.index()] == *id);
            lemma_wrote(before, between, so_far, *id);
            lemma_wrote(between, b, so_far.push(*id), *value);
            assert(order.take(it.index() + 1).drop_last() =~= order.take(it.index()));
        }
    }
    proof {
        lemma_walk(pairs, input@);
        assert(order.take(order.len() as int) =~= order);
        assert(order.len() > 0 ==> alternating(order, input@).len() > 0);
    }
    b.result_option()
}

/// The keys of `m` that it gives a positive number, each with that number.
pub open spec fn positive(m: Map<u32, int>) -> Map<u32, u32> {
    Map::new(|k: u32| m.contains_key(k) && m[k] > 0, |k: u32| m[k] as u32)
}

/// The part of `positive(m)` whose keys are among the first `n` of `keys`.
spec fn positive_upto(m: Map<u32, int>, keys: Seq<u32>, n: int) -> Map<u32, u32> {
    Map::new(
        |k: u32| m.contains_key(k) && m[k] > 0 && exists|j: int| 0 <= j < n && j < keys.len() && #[trigger] keys[j] == k,
        |k: u32| m[k] as u32,
    )
}

/// Keeps the entries that grant something: those with a positive number.
pub fn make_pairs_map(src: &HashMap<u32, i32>) -> (out: HashMap<u32, u32>)
    ensures
        out@ == positive(widened(src@)),
{
    let ghost pairs = src.iter().remaining();
    let ghost keys = keys_of(pairs);
    let ghost wide = widened(src@);
    let mut out: HashMap<u32, u32> = HashMap::new();
    assert(out@ =~= positive_upto(wide, keys, 0));
    for pair in it: src.iter()
        invariant
            it.seq() == pairs,
            keys == keys_of(pairs),
            wide == widened(src@),
            walks(pairs, src@),
            out@ == positive_upto(wide, keys, it.index()),
    {
        let (id, value) = pair;
        proof {
            lemma_walk(pairs, src@);
            assert(keys[it.index()] == *id);
        }
        if *value > 0 {
            out.insert(*id, *value as u32);
        }
        proof {
            let n = it.index();
            assert forall|k: u32| #[trigger]
                positive_upto(wide, keys, n + 1).contains_key(k) == out@.contains_key(k) by {
                if positive_upto(wide, keys, n + 1).contains_key(k) {
                    let j = choose|j: int| 0 <= j < n + 1 && j < keys.len() && #[trigger] keys[j] == k;
                    if j < n {
                        assert(positive_upto(wide, keys, n).contains_key(k));
                    }
                }
                if positive_upto(wide, keys, n).contains_key(k) {
                    let j = choose|j: int| 0 <= j < n && j < keys.len() && #[trigger] keys[j] == k;
                    assert(keys[j] == k);
                }
                if k == *id && *value > 0 {
                    assert(keys[n] == k);
                }
            }
            assert(out@ =~= positive_upto(wide, keys, n + 1));
        }
    }
    proof {
        lemma_walk(pairs, src@);
        assert forall|k: u32| #[trigger] positive(wide).contains_key(k) implies positive_upto(
            wide,
            keys,
            keys.len() as int,
        ).contains_key(k) by {
            assert(keys.contains(k));
            let j = choose|j: int| 0 <= j < keys.len() && keys[j] == k;
            assert(keys[j] == k);
        }
        assert(out@ =~= positive(wide));
    }
    out
}

/// A letter of the alphabet in which names are written, small or capital.
pub open spec fn is_letter(c: char) -> bool {
    ('\u{430}' <= c <= '\u{44f}') || ('\u{410}' <= c <= '\u{42f}')
}

/// A character that the second part of a name may hold: a letter, a space, a
/// hyphen or an apostrophe.
pub open spec fn is_extra_char(c: char) -> bool {
    is_letter(c) || c == ' ' || c == '-' || c == '\''
}

/// A name is 2 to 12 letters.
pub open spec fn valid_name(name: Seq<char>) -> bool {
    2 <= name.len() <= 12 && forall|i: int| 0 <= i < name.len() ==> is_letter(#[trigger] name[i])
}

/// The second part of a name is at most 20 letters, spaces, hyphens and apostrophes.
pub open spec fn valid_name_extra(text: Seq<char>) -> bool {
    text.len() <= 20 && forall|i: int| 0 <= i < text.len() ==> is_extra_char(#[trigger] text[i])
}

fn letter(c: char) -> (r: bool)
    ensures
        r == is_letter(c),
{
    ('\u{430}' <= c && c <= '\u{44f}') || ('\u{410}' <= c && c <= '\u{42f}')
}

/// Whether `name` can be the name of a character.
pub fn check_name_form(name: &str) -> (ok: bool)
    ensures
        ok == valid_name(name@),
{
    let chars = chars_of(name);
    if chars.len() < 2 || chars.len() > 12 {
        return false;
    }
    let mut i: usize = 0;
    while i < chars.len()
        invariant
            i <= chars.len(),
            chars@ == name@,
            forall|j: int| 0 <= j < i ==> is_letter(#[trigger] chars@[j]),
        decreases chars.len() - i,
    {
        if !letter(chars[i]) {
            assert(!is_letter(name@[i as int]));
            return false;
        }
        i += 1;
    }
    true
}

/// Whether `text` can be the second part of a character's name.
pub fn check_name_extra_form(text: &str) -> (ok: bool)
    ensures
        ok == valid_name_extra(text@),
{
    let chars = chars_of(text);
    if chars.len() > 20 {
        return false;
    }
    let mut i: usize = 0;
    while i < chars.len()
        invariant
            i <= chars.len(),
            chars@ == text@,
            forall|j: int| 0 <= j < i ==> is_extra_char(#[trigger] chars@[j]),
        decreases chars.len() - i,
    {
        let c = chars[i];
        if !(letter(c) || c == ' ' || c == '-' || c == '\'') {
            assert(!is_extra_char(text@[i as int]));
            return false;
        }
        i += 1;
    }
    true
}

/// The choices of a player for a new character.
#[derive(Debug)]
pub struct Form {
    pub role: String,
    pub name: String,
    pub info: Option<String>,
    pub name_extra: Option<String>,
    pub female: bool,
    pub race: String,
    pub class: String,
    pub armor: Option<String>,
    pub weapon: Option<String>,
    /// The identifiers of the chosen traits, each expected once.
    pub traits: Vec<String>,
    pub location: String,
    /// The player asks for equipment of the character's own.
    pub wants_loadup: bool,
    /// The character is not to be listed in public.
    pub hidden: bool,
}

/// What the player chose, kept with the character as it was entered.
#[derive(Debug)]
pub struct Metadata {
    pub info: Option<String>,
    pub role: Option<String>,
    pub race: Option<String>,
    pub class: Option<String>,
    pub armor: Option<String>,
    pub weapon: Option<String>,
    pub traits: Option<Vec<String>>,
    pub location: Option<String>,
    pub wants_loadup: bool,
    pub hidden: bool,
}

/// A character as it is handed on to be stored. The position and the orientation
/// are bit patterns, as they are in a location.
#[derive(Debug)]
pub struct CreationData {
    /// The looks of the character cannot be changed after it is made.
    pub locked: bool,
    pub name: String,
    pub name_extra: Option<String>,
    pub female: bool,
    pub race: u8,
    pub class: u8,
    pub level: u8,
    pub map: u32,
    pub zone: u32,
    pub position: Position,
    pub orientation: u32,
    pub banned_spells: HashSet<u32>,
    pub innate_spells: HashSet<u32>,
    pub starting_skills: HashMap<u32, u32>,
    pub starting_equip: Option<EquipArray>,
    pub starting_items: HashMap<u32, u32>,
    pub money: u32,
    pub metadata: Metadata,
}

/// The characters of a field's name, where one is named.
pub open spec fn text_of_field(field: Option<&'static str>) -> Option<Seq<char>> {
    match field {
        Some(s) => Some(s@),
        None => None,
    }
}

/// The characters of each text.
pub open spec fn texts_of(texts: Seq<String>) -> Seq<Seq<char>> {
    Seq::new(texts.len(), |i: int| texts[i]@)
}

/// The entities that a form chooses.
pub struct Chosen {
    pub role: Role,
    pub location: Location,
    pub race: Race,
    pub class: Class,
    pub armor: Option<Armor>,
    pub weapon: Option<Weapon>,
    pub traits: Seq<Trait>,
}

/// `value` where `v` lies between the bounds, else the bound that it passes.
pub open spec fn clamped(v: int, least: int, greatest: int) -> int {
    if v < least {
        least
    } else if v > greatest {
        greatest
    } else {
        v
    }
}

impl Chosen {
    /// The tags that the role, the race, the class, the armor and the weapons
    /// contribute, in this order.
    pub open spec fn first_tag_parts(self) -> Seq<TagMap> {
        let three = seq![self.role.provides@, self.race.meta.provides@, self.class.meta.provides@];
        let four = match self.armor {
            Some(e) => three.push(e.meta.provides@),
            None => three,
        };
        match self.weapon {
            Some(e) => four.push(e.meta.provides@),
            None => four,
        }
    }

    /// The tags that the entities contribute: those of the role, the race, the
    /// class, the armor, the weapons, each trait, the location.
    pub open spec fn tag_parts(self) -> Seq<TagMap> {
        (self.first_tag_parts() + Seq::new(
            self.traits.len(),
            |i: int| self.traits[i].meta.provides@,
        )).push(self.location.meta.provides@)
    }

    /// What the role, the location, the race, the class, the armor and the weapons
    /// change, in this order.
    pub open spec fn first_mods_parts(self) -> Seq<ModsView> {
        let four = seq![self.role.mods@, self.location.mods@, self.race.mods@, self.class.mods@];
        let five = match self.armor {
            Some(e) => four.push(e.mods@),
            None => four,
        };
        match self.weapon {
            Some(e) => five.push(e.mods@),
            None => five,
        }
    }

    /// What the entities change: the role, the location, the race, the class, the
    /// armor, the weapons, each trait.
    pub open spec fn mods_parts(self) -> Seq<ModsView> {
        self.first_mods_parts() + Seq::new(self.traits.len(), |i: int| self.traits[i].mods@)
    }

    /// The trait at `i` may be chosen under `tags`.
    pub open spec fn trait_allowed(self, tags: TagMap, i: int) -> bool {
        self.traits[i].meta.allowed(tags)
    }

    /// The first entity whose condition `tags` does not meet, as the field to blame.
    pub open spec fn unmet(self, tags: TagMap) -> Option<Seq<char>> {
        if !self.location.meta.allowed(tags) {
            Some("location/condition"@)
        } else if !self.race.meta.allowed(tags) {
            Some("race/condition"@)
        } else if !self.class.meta.allowed(tags) {
            Some("class/condition"@)
        } else if self.armor is Some && !self.armor->0.meta.allowed(tags) {
            Some("armor/condition"@)
        } else if self.weapon is Some && !self.weapon->0.meta.allowed(tags) {
            Some("weapon/condition"@)
        } else if exists|i: int| 0 <= i < self.traits.len() && !#[trigger] self.trait_allowed(tags, i) {
            Some("traits/condition"@)
        } else {
            None
        }
    }
}

impl Form {
    /// The name of the gender, as the filters know it.
    pub open spec fn gender(self) -> Seq<char> {
        if self.female {
            "female"@
        } else {
            "male"@
        }
    }

    /// The tags that every character has: the one of its gender, with weight 1.
    pub open spec fn own_tags(self) -> TagMap {
        if self.female {
            Map::<Seq<char>, int>::empty().insert("gender/female"@, 1)
        } else {
            Map::<Seq<char>, int>::empty().insert("gender/male"@, 1)
        }
    }

    /// The name as it is kept.
    pub open spec fn name_kept(self) -> Seq<char> {
        prepared_name(self.name@)
    }

    /// The second part of the name as it is kept.
    pub open spec fn name_extra_kept(self) -> Option<Seq<char>> {
        prepared_name_extra(text_of(self.name_extra))
    }

    /// The part of the name that cannot be accepted, if there is one.
    pub open spec fn misnamed(self) -> Option<Seq<char>> {
        if !valid_name(self.name_kept()) {
            Some("name"@)
        } else if self.name_extra_kept() is Some && !valid_name_extra(self.name_extra_kept()->0) {
            Some("name_extra"@)
        } else {
            None
        }
    }

    /// The campaign has a trait under the identifier at `i`.
    pub open spec fn trait_known(self, campaign: Campaign, i: int) -> bool {
        campaign.system.traits@.contains_key(self.traits@[i]@)
    }

    /// The first choice that the campaign does not know, as the field to blame.
    pub open spec fn unknown(self, campaign: Campaign) -> Option<Seq<char>> {
        if !campaign.roles@.contains_key(self.role@) {
            Some("role"@)
        } else if !campaign.system.location@.contains_key(self.location@) {
            Some("location"@)
        } else if !campaign.system.race@.contains_key(self.race@) {
            Some("race"@)
        } else if !campaign.system.class@.contains_key(self.class@) {
            Some("class"@)
        } else if self.armor is Some && !campaign.system.armor@.contains_key(self.armor->0@) {
            Some("armor"@)
        } else if self.weapon is Some && !campaign.system.weapon@.contains_key(self.weapon->0@) {
            Some("weapon"@)
        } else if exists|i: int| 0 <= i < self.traits@.len() && !#[trigger] self.trait_known(campaign, i) {
            Some("traits"@)
        } else {
            None
        }
    }

    /// The entities that the form chooses in the campaign.
    pub open spec fn chosen(self, campaign: Campaign) -> Chosen {
        Chosen {
            role: campaign.roles@[self.role@],
            location: campaign.system.location@[self.location@],
            race: campaign.system.race@[self.race@],
            class: campaign.system.class@[self.class@],
            armor: match self.armor {
                Some(id) => Some(campaign.system.armor@[id@]),
                None => None,
            },
            weapon: match self.weapon {
                Some(id) => Some(campaign.system.weapon@[id@]),
                None => None,
            },
            traits: Seq::new(
                self.traits@.len(),
                |i: int| campaign.system.traits@[self.traits@[i]@],
            ),
        }
    }

    /// The entity that does not admit the gender, the race or the class beside it,
    /// as the field to blame.
    pub open spec fn barred(self, campaign: Campaign) -> Option<Seq<char>> {
        self.barred_by(self.chosen(campaign))
    }

    /// The one of the chosen race and class that does not admit the gender, the
    /// race or the class beside it, as the field to blame.
    pub open spec fn barred_by(self, chosen: Chosen) -> Option<Seq<char>> {
        if !chosen.race.gender.admits(self.gender()) || !chosen.race.classes.admits(self.class@) {
            Some("race"@)
        } else if !chosen.class.gender.admits(self.gender()) || !chosen.class.races.admits(
            self.race@,
        ) {
            Some("class"@)
        } else {
            None
        }
    }

    /// The tags of the character: its own and those that the chosen entities contribute.
    pub open spec fn tags(self, campaign: Campaign) -> TagMap {
        total(self.own_tags(), self.chosen(campaign).tag_parts())
    }

    /// What the chosen entities change, all together.
    pub open spec fn mods(self, campaign: Campaign) -> ModsView {
        total_mods(self.chosen(campaign).mods_parts())
    }

    /// The choices are turned down before any sum is made.
    pub open spec fn refused_early(self, campaign: Campaign) -> bool {
        self.misnamed() is Some || self.unknown(campaign) is Some || self.barred(campaign) is Some
    }

    /// A sum that has to be made leaves the 32-bit range: one of the tags, or, where
    /// the tags meet every condition, one of the changes.
    pub open spec fn overflows(self, campaign: Campaign) -> bool {
        let chosen = self.chosen(campaign);
        !self.refused_early(campaign) && (!all_fit(self.own_tags(), chosen.tag_parts()) || (
            chosen.unmet(self.tags(campaign)) is None && !totals_fit(chosen.mods_parts())))
    }

    /// The field on which the form is turned down, if it is: the name, then the
    /// first unknown choice, then the first entity that bars another, then the
    /// first condition that the character's tags do not meet.
    pub open spec fn rejection(self, campaign: Campaign) -> Option<Seq<char>> {
        if self.misnamed() is Some {
            self.misnamed()
        } else if self.unknown(campaign) is Some {
            self.unknown(campaign)
        } else if self.barred(campaign) is Some {
            self.barred(campaign)
        } else {
            self.chosen(campaign).unmet(self.tags(campaign))
        }
    }

    /// The level of the new character: the campaign's base level and what the
    /// choices add to it, kept between the campaign's least and greatest level.
    pub open spec fn level(self, campaign: Campaign) -> int {
        clamped(
            campaign.level_base + self.mods(campaign).level,
            campaign.level_min as int,
            campaign.level_max as int,
        )
    }

    /// `data` is the character that the form makes in the campaign.
    pub open spec fn describes(self, campaign: Campaign, data: CreationData) -> bool {
        let chosen = self.chosen(campaign);
        let mods = self.mods(campaign);
        &&& data.locked == (chosen.role.kind != RoleKind::Free)
        &&& data.name@ == self.name_kept()
        &&& text_of(data.name_extra) == self.name_extra_kept()
        &&& data.female == self.female
        &&& data.race == chosen.race.game_id
        &&& data.class == chosen.class.game_id
        &&& data.level == self.level(campaign)
        &&& data.map == chosen.location.map
        &&& data.zone == chosen.location.zone
        &&& data.position == chosen.location.position
        &&& data.orientation == chosen.location.orientation
        &&& data.banned_spells@ == mods.spells_banned
        &&& data.innate_spells@ == mods.spells
        &&& data.starting_skills@ == positive(mods.skills)
        &&& data.starting_equip is Some
        &&& data.starting_equip->0@ == equipment(chosen.armor, chosen.weapon)
        &&& data.starting_items@ == positive(mods.items)
        &&& data.money == if mods.money < 0 {
            0
        } else {
            mods.money
        }
        &&& text_of(data.metadata.info) == text_of(self.info)
        &&& text_of(data.metadata.role) == Some(self.role@)
        &&& text_of(data.metadata.race) == Some(self.race@)
        &&& text_of(data.metadata.class) == Some(self.class@)
        &&& text_of(data.metadata.armor) == text_of(self.armor)
        &&& text_of(data.metadata.weapon) == text_of(self.weapon)
        &&& data.metadata.traits is Some
        &&& texts_of(data.metadata.traits->0@) == texts_of(self.traits@)
        &&& text_of(data.metadata.location) == Some(self.location@)
        &&& data.metadata.wants_loadup == self.wants_loadup
        &&& data.metadata.hidden == self.hidden
    }
}

/// The chosen entities, where they stand in the campaign.
struct Picked<'a> {
    role: &'a Role,
    location: &'a Location,
    race: &'a Race,
    class: &'a Class,
    armor: Option<&'a Armor>,
    weapon: Option<&'a Weapon>,
    traits: Vec<&'a Trait>,
}

impl<'a> Picked<'a> {
    spec fn chosen(self) -> Chosen {
        Chosen {
            role: *self.role,
            location: *self.location,
            race: *self.race,
            class: *self.class,
            armor: match self.armor {
                Some(e) => Some(*e),
                None => None,
            },
            weapon: match self.weapon {
                Some(e) => Some(*e),
                None => None,
            },
            traits: Seq::new(self.traits@.len(), |i: int| *self.traits@[i]),
        }
    }
}

fn invalid<T>(field: &'static str) -> (r: Result<T, AppError>)
    ensures
        r matches Err(AppError::InvalidInput(f)) && f == field,
{
    Err(AppError::InvalidInput(field))
}

/// Looks the chosen traits up.
fn pick_traits<'a>(form: &Form, campaign: &'a Campaign) -> (found: Option<Vec<&'a Trait>>)
    ensures
        match found {
            Some(traits) => traits@.len() == form.traits@.len() && (forall|i: int|
                0 <= i < form.traits@.len() ==> #[trigger] form.trait_known(*campaign, i)
                    && *traits@[i] == campaign.system.traits@[form.traits@[i]@]),
            None => exists|i: int|
                0 <= i < form.traits@.len() && !#[trigger] form.trait_known(*campaign, i),
        },
{
    let mut traits: Vec<&'a Trait> = Vec::new();
    let mut i: usize = 0;
    while i < form.traits.len()
        invariant
            i <= form.traits@.len(),
            traits@.len() == i,
            forall|j: int|
                0 <= j < i ==> #[trigger] form.trait_known(*campaign, j) && *traits@[j]
                    == campaign.system.traits@[form.traits@[j]@],
        decreases form.traits@.len() - i,
    {
        match campaign.system.traits.get(form.traits[i].as_str()) {
            Some(e) => {
                traits.push(e);
            },
            None => {
                assert(!form.trait_known(*campaign, i as int));
                return None;
            },
        }
        i += 1;
    }
    Some(traits)
}

/// Looks the choices up in the campaign.
fn pick<'a>(form: &Form, campaign: &'a Campaign) -> (found: Result<Picked<'a>, AppError>)
    ensures
        match found {
            Ok(picked) => form.unknown(*campaign) is None && picked.chosen() == form.chosen(
                *campaign,
            ),
            Err(AppError::InvalidInput(field)) => form.unknown(*campaign) == Some(field@),
        },
{
    let role = match campaign.roles.get(form.role.as_str()) {
        Some(e) => e,
        None => {
            return invalid("role");
        },
    };
    let location = match campaign.system.location.get(form.location.as_str()) {
        Some(e) => e,
        None => {
            return invalid("location");
        },
    };
    let race = match campaign.system.race.get(form.race.as_str()) {
        Some(e) => e,
        None => {
            return invalid("race");
        },
    };
    let class = match campaign.system.class.get(form.class.as_str()) {
        Some(e) => e,
        None => {
            return invalid("class");
        },
    };
    let armor = match &form.armor {
        Some(id) => match campaign.system.armor.get(id.as_str()) {
            Some(e) => Some(e),
            None => {
                return invalid("armor");
            },
        },
        None => None,
    };
    let weapon = match &form.weapon {
        Some(id) => match campaign.system.weapon.get(id.as_str()) {
            Some(e) => Some(e),
            None => {
                return invalid("weapon");
            },
        },
        None => None,
    };
    let traits = match pick_traits(form, campaign) {
        Some(traits) => traits,
        None => {
            return invalid("traits");
        },
    };
    let picked = Picked { role, location, race, class, armor, weapon, traits };
    proof {
        assert forall|i: int| 0 <= i < form.traits@.len() implies picked.chosen().traits[i]
            == form.chosen(*campaign).traits[i] by {
            assert(form.trait_known(*campaign, i));
        }
        assert(picked.chosen().traits =~= form.chosen(*campaign).traits);
    }
    Ok(picked)
}

impl<'a> Picked<'a> {
    /// Tests what the race and the class admit beside them.
    fn barred(&self, form: &Form) -> (field: Option<&'static str>)
        ensures
            text_of_field(field) == form.barred_by(self.chosen()),
    {
        let gender = if form.female {
            "female"
        } else {
            "male"
        };
        if !self.race.gender.matches(gender) || !self.race.classes.matches(form.class.as_str()) {
            Some("race")
        } else if !self.class.gender.matches(gender) || !self.class.races.matches(
            form.race.as_str(),
        ) {
            Some("class")
        } else {
            None
        }
    }

    /// Sums the tags of the character.
    fn tags(&self, form: &Form) -> (out: Option<Tags>)
        ensures
            match out {
                Some(tags) => all_fit(form.own_tags(), self.chosen().tag_parts()) && tags@
                    == total(form.own_tags(), self.chosen().tag_parts()),
                None => !all_fit(form.own_tags(), self.chosen().tag_parts()),
            },
    {
        let mut own = Tags::new();
        if form.female {
            own.add("gender/female", 1);
        } else {
            own.add("gender/male", 1);
        }
        let mut parts: Vec<&Tags> = Vec::new();
        parts.push(&self.role.provides);
        parts.push(&self.race.meta.provides);
        parts.push(&self.class.meta.provides);
        if let Some(e) = self.armor {
            parts.push(&e.meta.provides);
        }
        if let Some(e) = self.weapon {
            parts.push(&e.meta.provides);
        }
        let ghost first = self.chosen().first_tag_parts();
        let ghost each = Seq::new(
            self.traits@.len(),
            |i: int| self.chosen().traits[i].meta.provides@,
        );
        assert(tag_maps(parts@) =~= first);
        let mut i: usize = 0;
        while i < self.traits.len()
            invariant
                i <= self.traits@.len(),
                each == Seq::new(
                    self.traits@.len(),
                    |i: int| self.chosen().traits[i].meta.provides@,
                ),
                tag_maps(parts@) == first + each.take(i as int),
            decreases self.traits@.len() - i,
        {
            let ghost before = parts@;
            parts.push(&self.traits[i].meta.provides);
            proof {
                assert(each[i as int] == self.traits@[i as int].meta.provides@);
                assert(tag_maps(parts@) =~= tag_maps(before).push(each[i as int]));
                assert(each.take(i + 1) =~= each.take(i as int).push(each[i as int]));
                assert(tag_maps(parts@) =~= first + each.take(i + 1));
            }
            i += 1;
        }
        parts.push(&self.location.meta.provides);
        proof {
            assert(each.take(self.traits@.len() as int) =~= each);
            assert(tag_maps(parts@) =~= self.chosen().tag_parts());
        }
        merge_all(own, parts.as_slice())
    }

    /// Tests the condition of each entity on the character's tags.
    #[verifier::loop_isolation(false)]
    fn unmet(&self, tags: &Tags) -> (field: Option<&'static str>)
        ensures
            text_of_field(field) == self.chosen().unmet(tags@),
    {
        if !self.location.meta.check(tags) {
            return Some("location/condition");
        }
        if !self.race.meta.check(tags) {
            return Some("race/condition");
        }
        if !self.class.meta.check(tags) {
            return Some("class/condition");
        }
        if let Some(e) = self.armor {
            if !e.meta.check(tags) {
                return Some("armor/condition");
            }
        }
        if let Some(e) = self.weapon {
            if !e.meta.check(tags) {
                return Some("weapon/condition");
            }
        }
        let mut i: usize = 0;
        while i < self.traits.len()
            invariant
                i <= self.traits@.len(),
                forall|j: int| 0 <= j < i ==> #[trigger] self.chosen().trait_allowed(tags@, j),
            decreases self.traits@.len() - i,
        {
            if !self.traits[i].meta.check(tags) {
                assert(!self.chosen().trait_allowed(tags@, i as int));
                return Some("traits/condition");
            }
            assert(self.chosen().trait_allowed(tags@, i as int));
            i += 1;
        }
        None
    }

    /// Sums what the entities change.
    fn mods(&self) -> (out: Option<Mods>)
        ensures
            match out {
                Some(sum) => totals_fit(self.chosen().mods_parts()) && sum@ == total_mods(
                    self.chosen().mods_parts(),
                ),
                None => !totals_fit(self.chosen().mods_parts()),
            },
    {
        let mut parts: Vec<&Mods> = Vec::new();
        parts.push(&self.role.mods);
        parts.push(&self.location.mods);
        parts.push(&self.race.mods);
        parts.push(&self.class.mods);
        if let Some(e) = self.armor {
            parts.push(&e.mods);
        }
        if let Some(e) = self.weapon {
            parts.push(&e.mods);
        }
        let ghost first = self.chosen().first_mods_parts();
        let ghost each = Seq::new(self.traits@.len(), |i: int| self.chosen().traits[i].mods@);
        assert(mods_views(parts@) =~= first);
        let mut i: usize = 0;
        while i < self.traits.len()
            invariant
                i <= self.traits@.len(),
                each == Seq::new(self.traits@.len(), |i: int| self.chosen().traits[i].mods@),
                mods_views(parts@) == first + each.take(i as int),
            decreases self.traits@.len() - i,
        {
            let ghost before = parts@;
            parts.push(&self.traits[i].mods);
            proof {
                assert(each[i as int] == self.traits@[i as int].mods@);
                assert(mods_views(parts@) =~= mods_views(before).push(each[i as int]));
                assert(each.take(i + 1) =~= each.take(i as int).push(each[i as int]));
                assert(mods_views(parts@) =~= first + each.take(i + 1));
            }
            i += 1;
        }
        proof {
            assert(each.take(self.traits@.len() as int) =~= each);
            assert(mods_views(parts@) =~= self.chosen().mods_parts());
        }
        Mods::checked_join(parts.as_slice())
    }
}

impl Form {
    /// Turns the choices into a character of the campaign, or names the field on
    /// which they are turned down; nothing where a sum leaves the 32-bit range.
    pub fn try_into_cdata(self, campaign: &Campaign) -> (out: Option<AppResult<CreationData>>)
        ensures
            match out {
                Some(Ok(data)) => !self.overflows(*campaign) && self.rejection(*campaign) is None
                    && self.describes(*campaign, data),
                Some(Err(AppError::InvalidInput(field))) => !self.overflows(*campaign)
                    && self.rejection(*campaign) == Some(field@),
                None => self.overflows(*campaign),
            },
    {
        let name = prepare_name(self.name.as_str());
        let name_extra = match &self.name_extra {
            Some(text) => prepare_name_extra(Some(text.as_str())),
            None => None,
        };
        if !check_name_form(name.as_str()) {
            return Some(invalid("name"));
        }
        if let Some(text) = &name_extra {
            if !check_name_extra_form(text.as_str()) {
                return Some(invalid("name_extra"));
            }
        }
        assert(self.misnamed() is None);
        let picked = match pick(&self, campaign) {
            Ok(picked) => picked,
            Err(e) => {
                return Some(Err(e));
            },
        };
        if let Some(field) = picked.barred(&self) {
            return Some(invalid(field));
        }
        assert(!self.refused_early(*campaign));
        let tags = match picked.tags(&self) {
            Some(tags) => tags,
            None => {
                return None;
            },
        };
        if let Some(field) = picked.unmet(&tags) {
            return Some(invalid(field));
        }
        let mods = match picked.mods() {
            Some(mods) => mods,
            None => {
                return None;
            },
        };
        let level = campaign.level_base as i64 + mods.level as i64;
        let level: u8 = if level < campaign.level_min as i64 {
            campaign.level_min
        } else if level > campaign.level_max as i64 {
            campaign.level_max
        } else {
            level as u8
        };
        let money: u32 = if mods.money < 0 {
            0
        } else {
            mods.money as u32
        };
        let data = CreationData {
            locked: picked.role.kind != RoleKind::Free,
            name,
            name_extra,
            female: self.female,
            race: picked.race.game_id,
            class: picked.class.game_id,
            level,
            map: picked.location.map,
            zone: picked.location.zone,
            position: picked.location.position,
            orientation: picked.location.orientation,
            starting_skills: make_pairs_map(&mods.skills),
            starting_equip: Some(make_equip_array(picked.armor, picked.weapon)),
            starting_items: make_pairs_map(&mods.items),
            banned_spells: mods.spells_banned,
            innate_spells: mods.spells,
            money,
            metadata: Metadata {
                info: self.info,
                role: Some(self.role),
                race: Some(self.race),
                class: Some(self.class),
                armor: self.armor,
                weapon: self.weapon,
                traits: Some(self.traits),
                location: Some(self.location),
                wants_loadup: self.wants_loadup,
                hidden: self.hidden,
            },
        };
        Some(Ok(data))
    }

    /// Turns the choices into a character of the campaign, or names the field on
    /// which they are turned down.
    pub fn into_cdata(self, campaign: &Campaign) -> (out: AppResult<CreationData>)
        requires
            !self.overflows(*campaign),
        ensures
            match out {
                Ok(data) => self.rejection(*campaign) is None && self.describes(*campaign, data),
                Err(AppError::InvalidInput(field)) => self.rejection(*campaign) == Some(field@),
            },
    {
        self.try_into_cdata(campaign).unwrap()
    }
}

} // verus!
