use std::collections::{HashMap, HashSet};
use terra::system::{
    Armor, Class, Entity, Filter, Location, Metadata, Mods, Position, Race, System, Trait, Weapon,
};
use terra::table::Table;
use terra::tags::Tags;

fn mods(banned: &[u32], spells: &[u32], skills: &[(u32, i32)], items: &[(u32, i32)], money: i32, level: i32) -> Mods {
    Mods {
        spells_banned: banned.iter().copied().collect::<HashSet<u32>>(),
        spells: spells.iter().copied().collect::<HashSet<u32>>(),
        skills: skills.iter().copied().collect::<HashMap<u32, i32>>(),
        items: items.iter().copied().collect::<HashMap<u32, i32>>(),
        money,
        level,
    }
}

fn same(a: &Mods, b: &Mods) -> bool {
    a.spells_banned == b.spells_banned
        && a.spells == b.spells
        && a.skills == b.skills
        && a.items == b.items
        && a.money == b.money
        && a.level == b.level
}

fn meta(name: &str) -> Metadata {
    Metadata {
        name: name.to_string(),
        name_female: None,
        info: None,
        preview: None,
        requires: None,
        provides: Tags::new(),
        order: 0,
    }
}

fn race(name: &str, game_id: u8) -> Race {
    Race { meta: meta(name), game_id, gender: Filter::Pass, classes: Filter::Pass, mods: Mods::new() }
}

#[test]
fn new_mods_change_nothing() {
    let m = Mods::new();
    assert!(same(&m, &mods(&[], &[], &[], &[], 0, 0)));
}

#[test]
fn mods_merge_unites_and_adds() {
    let mut a = mods(&[1, 2], &[10], &[(5, 3), (6, -1)], &[(100, 1)], 50, 2);
    let b = mods(&[2, 3], &[11], &[(5, 4), (7, 9)], &[(100, -1), (200, 2)], -80, -5);
    a.merge_in(&b);
    assert!(same(
        &a,
        &mods(&[1, 2, 3], &[10, 11], &[(5, 7), (6, -1), (7, 9)], &[(100, 0), (200, 2)], -30, -3)
    ));
}

#[test]
fn mods_merge_is_commutative() {
    let a = || mods(&[1, 2], &[10], &[(5, 3), (6, -1)], &[(100, 1)], 50, 2);
    let b = || mods(&[2, 3], &[11], &[(5, 4), (7, 9)], &[(100, -1), (200, 2)], -80, -5);
    let mut ab = a();
    ab.merge_in(&b());
    let mut ba = b();
    ba.merge_in(&a());
    assert!(same(&ab, &ba));
}

#[test]
fn mods_merge_is_associative() {
    let a = || mods(&[1], &[10], &[(5, 3)], &[(100, 1)], 50, 2);
    let b = || mods(&[2], &[11], &[(5, 4), (7, 9)], &[(200, 2)], -80, -5);
    let c = || mods(&[3], &[10], &[(7, 1)], &[(100, 5)], 1, 1);
    let mut left = a();
    left.merge_in(&b());
    left.merge_in(&c());
    let mut bc = b();
    bc.merge_in(&c());
    let mut right = a();
    right.merge_in(&bc);
    assert!(same(&left, &right));
    assert!(same(&left, &mods(&[1, 2, 3], &[10, 11], &[(5, 7), (7, 10)], &[(100, 6), (200, 2)], -29, -2)));
}

#[test]
fn mods_merge_with_nothing() {
    let m = || mods(&[1], &[10], &[(5, 3)], &[(100, 1)], 50, 2);
    let mut left = m();
    left.merge_in(&Mods::new());
    assert!(same(&left, &m()));
    let mut right = Mods::new();
    right.merge_in(&m());
    assert!(same(&right, &m()));
}

#[test]
fn mods_can_merge_sees_overflow() {
    let a = mods(&[], &[], &[(1, i32::MAX)], &[(2, i32::MIN)], i32::MAX, i32::MIN);
    assert!(a.can_merge(&mods(&[], &[], &[(1, -1)], &[(2, 1)], -1, 1)));
    assert!(!a.can_merge(&mods(&[], &[], &[(1, 1)], &[], 0, 0)));
    assert!(!a.can_merge(&mods(&[], &[], &[], &[(2, -1)], 0, 0)));
    assert!(!a.can_merge(&mods(&[], &[], &[], &[], 1, 0)));
    assert!(!a.can_merge(&mods(&[], &[], &[], &[], 0, -1)));
}

#[test]
fn mods_join_sums_all() {
    let a = mods(&[1], &[10], &[(5, 3)], &[(100, 1)], 50, 2);
    let b = mods(&[2], &[11], &[(5, 4), (7, 9)], &[(200, 2)], -80, -5);
    let c = mods(&[3], &[10], &[(7, 1)], &[(100, 5)], 1, 1);
    let sum = Mods::join(&vec![&a, &b, &c]);
    assert!(same(&sum, &mods(&[1, 2, 3], &[10, 11], &[(5, 7), (7, 10)], &[(100, 6), (200, 2)], -29, -2)));
    let other = Mods::join(&vec![&c, &a, &b]);
    assert!(same(&sum, &other));
    assert!(same(&Mods::join(&vec![]), &Mods::new()));
}

#[test]
fn mods_checked_join_sees_overflow_on_the_way() {
    let up = mods(&[], &[], &[], &[], i32::MAX, 0);
    let one = mods(&[], &[], &[], &[], 1, 0);
    let down = mods(&[], &[], &[], &[], -5, 0);
    assert!(Mods::checked_join(&vec![&up, &one, &down]).is_none());
    let sum = Mods::checked_join(&vec![&up, &down, &one]).unwrap();
    assert_eq!(sum.money, i32::MAX - 4);
}

#[test]
fn filter_matches() {
    let list = || vec!["human".to_string(), "orc".to_string()];
    assert!(Filter::Pass.matches("anything"));
    assert!(Filter::Allow(list()).matches("orc"));
    assert!(!Filter::Allow(list()).matches("elf"));
    assert!(!Filter::Allow(vec![]).matches("elf"));
    assert!(!Filter::Deny(list()).matches("human"));
    assert!(Filter::Deny(list()).matches("elf"));
    assert!(Filter::Deny(vec![]).matches("elf"));
}

#[test]
fn table_put_and_get() {
    let mut t: Table<u32> = Table::new();
    assert_eq!(t.len(), 0);
    assert!(t.get("a").is_none());
    t.put("a", 1);
    t.put("b", 2);
    t.put("a", 3);
    assert_eq!(t.len(), 2);
    assert_eq!(t.get("a"), Some(&3));
    assert_eq!(t.get("b"), Some(&2));
    assert!(t.contains_key("b"));
    assert!(!t.contains_key("c"));
    assert_eq!(t.position("b"), Some(1));
    assert_eq!(t.position("c"), None);
    assert_eq!(t.name_at(0), "a");
    assert_eq!(t.name_at(1), "b");
    assert_eq!(*t.value_at(0), 3);
}

#[test]
fn table_fill_keeps_what_is_there() {
    let mut first: Table<u32> = Table::new();
    first.put("a", 1);
    first.put("b", 2);
    let mut second: Table<u32> = Table::new();
    second.put("c", 30);
    second.put("b", 20);
    second.put("d", 40);
    first.fill_from(second);
    assert_eq!(first.len(), 4);
    assert_eq!(first.get("a"), Some(&1));
    assert_eq!(first.get("b"), Some(&2));
    assert_eq!(first.get("c"), Some(&30));
    assert_eq!(first.get("d"), Some(&40));
    assert_eq!(first.name_at(2), "c");
    assert_eq!(first.name_at(3), "d");
}

#[test]
fn system_merge_first_layer_wins() {
    let mut campaign = System::new();
    campaign.race.put("human", race("Campaign human", 1));
    let mut shared = System::new();
    shared.race.put("human", race("Shared human", 9));
    shared.race.put("orc", race("Shared orc", 2));
    campaign.merge_in(shared);
    assert_eq!(campaign.race.len(), 2);
    assert_eq!(campaign.race.get("human").unwrap().meta.name, "Campaign human");
    assert_eq!(campaign.race.get("human").unwrap().game_id, 1);
    assert_eq!(campaign.race.get("orc").unwrap().game_id, 2);
    assert_eq!(campaign.class.len(), 0);
}

#[test]
fn system_merge_twice_is_merge_once() {
    let shared = || {
        let mut s = System::new();
        s.race.put("human", race("Shared human", 9));
        s.race.put("orc", race("Shared orc", 2));
        s
    };
    let start = || {
        let mut s = System::new();
        s.race.put("human", race("Campaign human", 1));
        s
    };
    let mut once = start();
    once.merge_in(shared());
    let mut twice = start();
    twice.merge_in(shared());
    twice.merge_in(shared());
    assert_eq!(once.race.len(), twice.race.len());
    for i in 0..once.race.len() {
        assert_eq!(once.race.name_at(i), twice.race.name_at(i));
        assert_eq!(once.race.value_at(i).meta.name, twice.race.value_at(i).meta.name);
        assert_eq!(once.race.value_at(i).game_id, twice.race.value_at(i).game_id);
    }
    let mut itself = start();
    itself.merge_in(start());
    assert_eq!(itself.race.len(), 1);
    assert_eq!(itself.race.get("human").unwrap().game_id, 1);
}

fn armor(name: &str) -> Armor {
    Armor {
        meta: meta(name),
        head: None,
        neck: None,
        shoulders: None,
        body: None,
        chest: None,
        waist: None,
        legs: None,
        feet: None,
        wrists: None,
        hands: None,
        fingers: vec![],
        trinkets: vec![],
        back: None,
        tabard: None,
        bags: vec![],
        mods: Mods::new(),
    }
}

#[test]
fn entities_tell_their_kind_and_metadata() {
    let mut r = race("Human", 1);
    r.meta.info = Some("people".to_string());
    r.meta.preview = Some("human.png".to_string());
    assert_eq!(r.kind(), "race");
    assert_eq!(r.info().name, "Human");
    assert_eq!(r.name(), "Human");
    assert_eq!(r.description(), Some("people"));
    assert_eq!(r.preview(), Some("human.png"));
    let c = Class { meta: meta("Mage"), game_id: 8, gender: Filter::Pass, races: Filter::Pass, mods: Mods::new() };
    assert_eq!(c.kind(), "class");
    assert_eq!(c.name(), "Mage");
    assert_eq!(c.description(), None);
    assert_eq!(c.preview(), None);
    assert_eq!(armor("Plate").kind(), "armor");
    let w = Weapon { meta: meta("Axe"), mainhand: None, offhand: None, ranged: None, mods: Mods::new() };
    assert_eq!(w.kind(), "weapon");
    let t = Trait { meta: meta("Brave"), cost: 1, group: None, mods: Mods::new() };
    assert_eq!(t.kind(), "trait");
    let l = Location { meta: meta("Town"), map: 0, zone: 0, position: Position { x: 0, y: 0, z: 0 }, orientation: 0, mods: Mods::new() };
    assert_eq!(l.kind(), "location");
    assert_eq!(l.info().name, "Town");
}

#[test]
fn info_iter_lists_every_entity_by_kind() {
    let mut s = System::new();
    assert!(s.info_iter().is_empty());
    s.location.put("town", Location { meta: meta("Town"), map: 0, zone: 0, position: Position { x: 0, y: 0, z: 0 }, orientation: 0, mods: Mods::new() });
    s.armor.put("plate", armor("Plate"));
    s.race.put("orc", race("Orc", 2));
    s.race.put("human", race("Human", 1));
    s.traits.put("brave", Trait { meta: meta("Brave"), cost: 1, group: None, mods: Mods::new() });
    let names: Vec<&str> = s.info_iter().iter().map(|m| m.name.as_str()).collect();
    assert_eq!(names, vec!["Orc", "Human", "Plate", "Brave", "Town"]);
}

#[test]
fn metadata_condition() {
    let mut m = meta("Any");
    let mut tags = Tags::new();
    assert!(m.check(&tags));
    m.requires = Some(terra::tags::Condition::Has("key".to_string()));
    assert!(!m.check(&tags));
    tags.add("key", 0);
    assert!(m.check(&tags));
}
