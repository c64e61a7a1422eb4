use std::collections::{HashMap, HashSet};
use terra::campaign::{Block, Campaign, Role, RoleKind};
use terra::character::{
    check_name_extra_form, check_name_form, make_equip_array, make_equip_string, make_ids_string,
    make_pairs_map, make_pairs_string, CreationData, Form, StringBuilder,
};
use terra::error::AppError;
use terra::system::{
    Armor, Class, Filter, Location, Metadata, Mods, Position, Race, System, Trait, Weapon,
};
use terra::table::Table;
use terra::tags::{Condition, ConditionOperand, Tags};

fn tags(entries: &[(&str, i32)]) -> Tags {
    let mut t = Tags::new();
    for (name, value) in entries {
        t.add(name, *value);
    }
    t
}

fn meta(name: &str, requires: Option<Condition>, provides: &[(&str, i32)]) -> Metadata {
    Metadata {
        name: name.to_string(),
        name_female: None,
        info: None,
        preview: None,
        requires,
        provides: tags(provides),
        order: 0,
    }
}

fn has(tag: &str) -> Option<Condition> {
    Some(Condition::Has(tag.to_string()))
}

fn money(amount: i32) -> Mods {
    let mut m = Mods::new();
    m.money = amount;
    m
}

fn level(amount: i32) -> Mods {
    let mut m = Mods::new();
    m.level = amount;
    m
}

fn armor(name: &str, head: Option<u32>) -> Armor {
    Armor {
        meta: meta(name, None, &[]),
        head,
        neck: None,
        shoulders: None,
        body: None,
        chest: None,
        waist: None,
        legs: None,
        feet: None,
        wrists: None,
        hands: None,
        fingers: vec![],
        trinkets: vec![],
        back: None,
        tabard: None,
        bags: vec![],
        mods: Mods::new(),
    }
}

fn role(kind: RoleKind, provides: &[(&str, i32)], mods: Mods) -> Role {
    Role { name: "Role".to_string(), info: None, kind, limit: None, provides: tags(provides), mods }
}

fn campaign() -> Campaign {
    let mut system = System::new();
    system.race.put(
        "human",
        Race { meta: meta("Human", None, &[]), game_id: 1, gender: Filter::Pass, classes: Filter::Pass, mods: Mods::new() },
    );
    system.race.put(
        "dwarf",
        Race {
            meta: meta("Dwarf", has("hardy"), &[("short", 1)]),
            game_id: 3,
            gender: Filter::Allow(vec!["male".to_string()]),
            classes: Filter::Deny(vec!["mage".to_string()]),
            mods: level(3),
        },
    );
    system.class.put(
        "warrior",
        Class { meta: meta("Warrior", has("strong"), &[]), game_id: 1, gender: Filter::Pass, races: Filter::Pass, mods: Mods::new() },
    );
    system.class.put(
        "mage",
        Class {
            meta: meta("Mage", None, &[("arcane", 2)]),
            game_id: 8,
            gender: Filter::Pass,
            races: Filter::Allow(vec!["human".to_string(), "dwarf".to_string()]),
            mods: Mods::new(),
        },
    );
    system.class.put(
        "priestess",
        Class {
            meta: meta("Priestess", None, &[]),
            game_id: 5,
            gender: Filter::Deny(vec!["male".to_string()]),
            races: Filter::Deny(vec!["dwarf".to_string()]),
            mods: Mods::new(),
        },
    );
    system.armor.put("helmet", armor("Helmet", Some(100)));
    let mut heavy = armor("Heavy", Some(7));
    heavy.meta.requires = has("strong");
    heavy.fingers = vec![11, 12, 13];
    heavy.trinkets = vec![21];
    heavy.bags = vec![31, 32, 33, 34, 35];
    heavy.tabard = Some(40);
    heavy.back = Some(41);
    heavy.mods = money(-100);
    system.armor.put("heavy", heavy);
    system.weapon.put(
        "sword",
        Weapon { meta: meta("Sword", None, &[("armed", 1)]), mainhand: Some(500), offhand: None, ranged: Some(502), mods: Mods::new() },
    );
    system.weapon.put(
        "staff",
        Weapon { meta: meta("Staff", has("arcane"), &[]), mainhand: Some(600), offhand: None, ranged: None, mods: Mods::new() },
    );
    let mut rich = Mods::new();
    rich.money = 70;
    rich.spells.insert(900);
    rich.spells_banned.insert(901);
    rich.skills.insert(40, 5);
    rich.skills.insert(41, -5);
    rich.items.insert(60, 2);
    system.traits.put("rich", Trait { meta: meta("Rich", None, &[("wealth", 1)]), cost: 2, group: None, mods: rich });
    let mut poor = Mods::new();
    poor.money = -120;
    poor.spells.insert(901);
    poor.skills.insert(40, -5);
    poor.items.insert(60, 1);
    poor.items.insert(61, 0);
    system.traits.put("poor", Trait { meta: meta("Poor", None, &[("wealth", -1)]), cost: -2, group: None, mods: poor });
    system.traits.put(
        "noble",
        Trait {
            meta: meta(
                "Noble",
                Some(Condition::Gt(vec![ConditionOperand::Tag("wealth".to_string()), ConditionOperand::Constant(0)])),
                &[],
            ),
            cost: 1,
            group: Some("origin".to_string()),
            mods: level(100),
        },
    );
    system.location.put(
        "town",
        Location {
            meta: meta("Town", None, &[]),
            map: 7,
            zone: 12,
            position: Position { x: 0x3f800000, y: 0x40000000, z: 0xc0400000 },
            orientation: 0x40490fdb,
            mods: Mods::new(),
        },
    );
    system.location.put(
        "mine",
        Location { meta: meta("Mine", has("short"), &[("hardy", 1)]), map: 1, zone: 2, position: Position { x: 0, y: 0, z: 0 }, orientation: 0, mods: level(-50) },
    );
    let mut roles: Table<Role> = Table::new();
    roles.put("soldier", role(RoleKind::Normal, &[("strong", 1)], Mods::new()));
    roles.put("wanderer", role(RoleKind::Free, &[], money(-50)));
    roles.put("hero", role(RoleKind::Special, &[("strong", 1), ("hardy", 1)], level(9)));
    Campaign {
        name: "Campaign".to_string(),
        info: String::new(),
        system,
        blocks: vec![Block { id: "b".to_string(), name: "B".to_string(), info: None, roles: vec!["soldier".to_string()] }],
        roles,
        level_base: 1,
        level_min: 1,
        level_max: 80,
    }
}

fn form(role: &str, race: &str, class: &str) -> Form {
    Form {
        role: role.to_string(),
        name: "иван".to_string(),
        info: Some("about".to_string()),
        name_extra: None,
        female: false,
        race: race.to_string(),
        class: class.to_string(),
        armor: None,
        weapon: None,
        traits: vec![],
        location: "town".to_string(),
        wants_loadup: false,
        hidden: true,
    }
}

fn rejected(form: Form, field: &str) -> bool {
    match form.into_cdata(&campaign()) {
        Err(AppError::InvalidInput(f)) => f == field,
        Ok(_) => false,
    }
}

fn accepted(form: Form) -> CreationData {
    match form.into_cdata(&campaign()) {
        Ok(data) => data,
        Err(AppError::InvalidInput(f)) => panic!("turned down on {}", f),
    }
}

#[test]
fn resolver_end_to_end() {
    let mut system = System::new();
    system.race.put(
        "human",
        Race { meta: meta("Human", None, &[]), game_id: 1, gender: Filter::Pass, classes: Filter::Pass, mods: Mods::new() },
    );
    system.class.put(
        "warrior",
        Class { meta: meta("Warrior", has("strong"), &[]), game_id: 1, gender: Filter::Pass, races: Filter::Pass, mods: Mods::new() },
    );
    system.location.put(
        "town",
        Location { meta: meta("Town", None, &[]), map: 0, zone: 0, position: Position { x: 0, y: 0, z: 0 }, orientation: 0, mods: Mods::new() },
    );
    let mut roles: Table<Role> = Table::new();
    roles.put("strongman", role(RoleKind::Normal, &[("strong", 1)], Mods::new()));
    roles.put("weakling", role(RoleKind::Normal, &[], Mods::new()));
    let campaign = Campaign {
        name: "C".to_string(),
        info: String::new(),
        system,
        blocks: vec![],
        roles,
        level_base: 1,
        level_min: 1,
        level_max: 80,
    };
    assert!(form("strongman", "human", "warrior").into_cdata(&campaign).is_ok());
    assert!(matches!(
        form("weakling", "human", "warrior").into_cdata(&campaign),
        Err(AppError::InvalidInput("class/condition"))
    ));
}

#[test]
fn accepted_form_is_resolved() {
    let mut f = form("soldier", "human", "warrior");
    f.name = "  иВАН ".to_string();
    f.name_extra = Some(" де   ла   Круа ".to_string());
    f.armor = Some("helmet".to_string());
    f.weapon = Some("sword".to_string());
    f.traits = vec!["rich".to_string()];
    let data = accepted(f);
    assert!(data.locked);
    assert_eq!(data.name, "Иван");
    assert_eq!(data.name_extra, Some("де ла Круа".to_string()));
    assert!(!data.female);
    assert_eq!(data.race, 1);
    assert_eq!(data.class, 1);
    assert_eq!(data.level, 1);
    assert_eq!(data.map, 7);
    assert_eq!(data.zone, 12);
    assert_eq!(data.position, Position { x: 0x3f800000, y: 0x40000000, z: 0xc0400000 });
    assert_eq!(data.orientation, 0x40490fdb);
    assert_eq!(data.banned_spells, [901].into_iter().collect::<HashSet<u32>>());
    assert_eq!(data.innate_spells, [900].into_iter().collect::<HashSet<u32>>());
    assert_eq!(data.starting_skills, [(40, 5)].into_iter().collect::<HashMap<u32, u32>>());
    assert_eq!(data.starting_items, [(60, 2)].into_iter().collect::<HashMap<u32, u32>>());
    assert_eq!(data.money, 70);
    let equip = data.starting_equip.unwrap();
    assert_eq!(equip[0], Some(100));
    assert_eq!(equip[15], Some(500));
    assert_eq!(equip[16], None);
    assert_eq!(equip[17], Some(502));
    assert_eq!(equip.iter().filter(|slot| slot.is_some()).count(), 3);
    assert_eq!(data.metadata.info, Some("about".to_string()));
    assert_eq!(data.metadata.role, Some("soldier".to_string()));
    assert_eq!(data.metadata.race, Some("human".to_string()));
    assert_eq!(data.metadata.class, Some("warrior".to_string()));
    assert_eq!(data.metadata.armor, Some("helmet".to_string()));
    assert_eq!(data.metadata.weapon, Some("sword".to_string()));
    assert_eq!(data.metadata.traits, Some(vec!["rich".to_string()]));
    assert_eq!(data.metadata.location, Some("town".to_string()));
    assert!(!data.metadata.wants_loadup);
    assert!(data.metadata.hidden);
}

#[test]
fn banned_spells_are_not_taken_from_granted() {
    let mut f = form("soldier", "human", "warrior");
    f.traits = vec!["rich".to_string(), "poor".to_string()];
    let data = accepted(f);
    assert_eq!(data.banned_spells, [901].into_iter().collect::<HashSet<u32>>());
    assert_eq!(data.innate_spells, [900, 901].into_iter().collect::<HashSet<u32>>());
    assert_eq!(data.starting_skills, HashMap::new());
    assert_eq!(data.starting_items, [(60, 3)].into_iter().collect::<HashMap<u32, u32>>());
}

#[test]
fn money_floor() {
    let data = accepted(form("wanderer", "human", "mage"));
    assert_eq!(data.money, 0);
    let mut f = form("wanderer", "human", "mage");
    f.traits = vec!["rich".to_string()];
    assert_eq!(accepted(f).money, 20);
    let mut f = form("wanderer", "human", "mage");
    f.traits = vec!["poor".to_string(), "rich".to_string()];
    assert_eq!(accepted(f).money, 0);
}

#[test]
fn locked_unless_role_is_free() {
    assert!(!accepted(form("wanderer", "human", "mage")).locked);
    assert!(accepted(form("soldier", "human", "mage")).locked);
    assert!(accepted(form("hero", "human", "mage")).locked);
}

#[test]
fn level_is_clamped() {
    assert_eq!(accepted(form("soldier", "human", "mage")).level, 1);
    assert_eq!(accepted(form("hero", "human", "mage")).level, 10);
    assert_eq!(accepted(form("hero", "dwarf", "warrior")).level, 13);
    let mut f = form("hero", "dwarf", "warrior");
    f.location = "mine".to_string();
    assert_eq!(accepted(f).level, 1);
    let mut f = form("hero", "human", "mage");
    f.traits = vec!["rich".to_string(), "noble".to_string()];
    assert_eq!(accepted(f).level, 80);
    let mut c = campaign();
    c.level_base = 10;
    c.level_min = 5;
    c.level_max = 12;
    assert_eq!(form("soldier", "human", "mage").into_cdata(&c).ok().unwrap().level, 10);
    assert_eq!(form("hero", "human", "mage").into_cdata(&c).ok().unwrap().level, 12);
    let mut f = form("soldier", "dwarf", "warrior");
    f.location = "mine".to_string();
    assert_eq!(f.into_cdata(&c).ok().unwrap().level, 5);
}

#[test]
fn unknown_trait_is_rejected() {
    let mut f = form("soldier", "human", "warrior");
    f.traits = vec!["rich".to_string(), "nonesuch".to_string()];
    assert!(matches!(f.into_cdata(&campaign()), Err(AppError::InvalidInput("traits"))));
}

#[test]
fn bad_names_are_rejected() {
    for name in ["", "и", "ivan", "иван1", "иван петров", "абвгдежзиклмн", "ёж"] {
        let mut f = form("soldier", "human", "warrior");
        f.name = name.to_string();
        assert!(rejected(f, "name"), "{}", name);
    }
    for name in ["ия", "абвгдежзиклм", " Олег\n"] {
        let mut f = form("soldier", "human", "warrior");
        f.name = name.to_string();
        assert!(f.into_cdata(&campaign()).is_ok(), "{}", name);
    }
    for extra in ["smith", "абвгдежзийклмнопрстуф", "ван_дер"] {
        let mut f = form("soldier", "human", "warrior");
        f.name_extra = Some(extra.to_string());
        assert!(rejected(f, "name_extra"), "{}", extra);
    }
    for extra in ["", "  ", "д'Артаньян", "ван-дер  Ваальс", "абвгдежзийклмнопрсту"] {
        let mut f = form("soldier", "human", "warrior");
        f.name_extra = Some(extra.to_string());
        assert!(f.into_cdata(&campaign()).is_ok(), "{}", extra);
    }
}

#[test]
fn name_is_checked_first() {
    let mut f = form("nobody", "nothing", "none");
    f.name = "x".to_string();
    f.name_extra = Some("y".to_string());
    assert!(rejected(f, "name"));
    let mut f = form("nobody", "nothing", "none");
    f.name_extra = Some("y".to_string());
    assert!(rejected(f, "name_extra"));
}

#[test]
fn unknown_choices_are_rejected() {
    assert!(rejected(form("nobody", "human", "warrior"), "role"));
    assert!(rejected(form("soldier", "elf", "warrior"), "race"));
    assert!(rejected(form("soldier", "human", "bard"), "class"));
    let mut f = form("soldier", "human", "warrior");
    f.location = "moon".to_string();
    assert!(rejected(f, "location"));
    let mut f = form("soldier", "human", "warrior");
    f.armor = Some("rags".to_string());
    assert!(rejected(f, "armor"));
    let mut f = form("soldier", "human", "warrior");
    f.weapon = Some("club".to_string());
    assert!(rejected(f, "weapon"));
    let mut f = form("soldier", "elf", "bard");
    f.location = "moon".to_string();
    assert!(rejected(f, "location"));
    let mut f = form("soldier", "human", "warrior");
    f.armor = Some("rags".to_string());
    f.weapon = Some("club".to_string());
    f.traits = vec!["nonesuch".to_string()];
    assert!(rejected(f, "armor"));
}

#[test]
fn filters_are_checked() {
    let mut f = form("hero", "dwarf", "warrior");
    f.female = true;
    assert!(rejected(f, "race"));
    assert!(rejected(form("hero", "dwarf", "mage"), "race"));
    assert!(rejected(form("hero", "human", "priestess"), "class"));
    let mut f = form("hero", "human", "priestess");
    f.female = true;
    assert!(f.into_cdata(&campaign()).is_ok());
    let mut f = form("hero", "dwarf", "priestess");
    f.female = true;
    assert!(rejected(f, "race"));
    assert!(accepted(form("hero", "dwarf", "warrior")).race == 3);
}

#[test]
fn conditions_see_all_tags() {
    assert!(rejected(form("wanderer", "human", "warrior"), "class/condition"));
    assert!(rejected(form("soldier", "dwarf", "warrior"), "race/condition"));
    let mut f = form("soldier", "dwarf", "warrior");
    f.location = "mine".to_string();
    assert!(f.into_cdata(&campaign()).is_ok());
    let mut f = form("soldier", "human", "warrior");
    f.location = "mine".to_string();
    assert!(rejected(f, "location/condition"));
    let mut f = form("wanderer", "human", "mage");
    f.armor = Some("heavy".to_string());
    assert!(rejected(f, "armor/condition"));
    let mut f = form("wanderer", "human", "warrior");
    f.weapon = Some("staff".to_string());
    assert!(rejected(f, "class/condition"));
    let mut f = form("soldier", "human", "warrior");
    f.weapon = Some("staff".to_string());
    assert!(rejected(f, "weapon/condition"));
    let mut f = form("soldier", "human", "mage");
    f.weapon = Some("staff".to_string());
    assert!(f.into_cdata(&campaign()).is_ok());
    let mut f = form("soldier", "human", "mage");
    f.traits = vec!["noble".to_string()];
    assert!(rejected(f, "traits/condition"));
    let mut f = form("soldier", "human", "mage");
    f.traits = vec!["noble".to_string(), "rich".to_string(), "poor".to_string()];
    assert!(rejected(f, "traits/condition"));
    let mut f = form("soldier", "human", "mage");
    f.traits = vec!["noble".to_string(), "rich".to_string()];
    assert!(f.into_cdata(&campaign()).is_ok());
}

#[test]
fn gender_tag_is_provided() {
    let mut c = campaign();
    c.system.class.put(
        "amazon",
        Class { meta: meta("Amazon", has("gender/female"), &[]), game_id: 2, gender: Filter::Pass, races: Filter::Pass, mods: Mods::new() },
    );
    c.system.class.put(
        "monk",
        Class {
            meta: meta(
                "Monk",
                Some(Condition::Eq(vec![ConditionOperand::Tag("gender/male".to_string()), ConditionOperand::Constant(1)])),
                &[],
            ),
            game_id: 4,
            gender: Filter::Pass,
            races: Filter::Pass,
            mods: Mods::new(),
        },
    );
    let mut f = form("soldier", "human", "amazon");
    f.female = true;
    assert!(f.into_cdata(&c).ok().unwrap().female);
    assert!(matches!(form("soldier", "human", "amazon").into_cdata(&c), Err(AppError::InvalidInput("class/condition"))));
    assert!(form("soldier", "human", "monk").into_cdata(&c).is_ok());
    let mut f = form("soldier", "human", "monk");
    f.female = true;
    assert!(matches!(f.into_cdata(&c), Err(AppError::InvalidInput("class/condition"))));
}

#[test]
fn overflow_is_reported_as_nothing() {
    let mut c = campaign();
    c.roles.put("tycoon", role(RoleKind::Normal, &[("wealth", i32::MAX)], money(i32::MAX)));
    assert!(form("tycoon", "human", "mage").try_into_cdata(&c).unwrap().is_ok());
    let mut f = form("tycoon", "human", "mage");
    f.traits = vec!["rich".to_string()];
    assert!(f.try_into_cdata(&c).is_none());
    let mut f = form("tycoon", "human", "mage");
    f.traits = vec!["poor".to_string()];
    assert_eq!(f.try_into_cdata(&c).unwrap().ok().unwrap().money, (i32::MAX - 120) as u32);
    let mut f = form("tycoon", "human", "mage");
    f.traits = vec!["poor".to_string(), "nonesuch".to_string()];
    assert!(matches!(f.try_into_cdata(&c), Some(Err(AppError::InvalidInput("traits")))));
    c.roles.put("banker", role(RoleKind::Normal, &[], money(i32::MAX)));
    let mut f = form("banker", "human", "warrior");
    f.traits = vec!["rich".to_string()];
    assert!(matches!(f.try_into_cdata(&c), Some(Err(AppError::InvalidInput("class/condition")))));
    let mut f = form("banker", "human", "mage");
    f.traits = vec!["rich".to_string()];
    assert!(f.try_into_cdata(&c).is_none());
}

#[test]
fn equipment_serialization() {
    let helmet = armor("Helmet", Some(100));
    let slots = make_equip_array(Some(&helmet), None);
    assert_eq!(make_equip_string(&slots), "100 0 0 0 0 0 0 0 0 0 0 0 0 0 0 0 0 0 0 0 0 0 0");
}

#[test]
fn equipment_slots_in_order() {
    let a = Armor {
        meta: meta("Full", None, &[]),
        head: Some(1),
        neck: Some(2),
        shoulders: Some(3),
        body: Some(4),
        chest: Some(5),
        waist: Some(6),
        legs: Some(7),
        feet: Some(8),
        wrists: Some(9),
        hands: Some(10),
        fingers: vec![11, 12, 99],
        trinkets: vec![13, 14, 99],
        back: Some(15),
        tabard: Some(19),
        bags: vec![20, 21, 22, 23, 99],
        mods: Mods::new(),
    };
    let w = Weapon { meta: meta("W", None, &[]), mainhand: Some(16), offhand: Some(17), ranged: Some(18), mods: Mods::new() };
    let slots = make_equip_array(Some(&a), Some(&w));
    assert_eq!(slots.len(), 23);
    for (i, slot) in slots.iter().enumerate() {
        assert_eq!(*slot, Some(i as u32 + 1));
    }
    assert_eq!(make_equip_string(&slots), "1 2 3 4 5 6 7 8 9 10 11 12 13 14 15 16 17 18 19 20 21 22 23");
    let none = make_equip_array(None, None);
    assert_eq!(none, [None; 23]);
    assert_eq!(make_equip_string(&none), "0 0 0 0 0 0 0 0 0 0 0 0 0 0 0 0 0 0 0 0 0 0 0");
    let only = make_equip_array(None, Some(&w));
    assert_eq!(make_equip_string(&only), "0 0 0 0 0 0 0 0 0 0 0 0 0 0 0 16 17 18 0 0 0 0 0");
    let mut short = armor("Short", None);
    short.fingers = vec![5];
    short.bags = vec![6, 7];
    assert_eq!(make_equip_string(&make_equip_array(Some(&short), None)), "0 0 0 0 0 0 0 0 0 0 5 0 0 0 0 0 0 0 0 6 7 0 0");
}

#[test]
fn ids_string() {
    assert_eq!(make_ids_string(&HashSet::new()), None);
    assert_eq!(make_ids_string(&[77].into_iter().collect()), Some("77".to_string()));
    let text = make_ids_string(&[1, 20, 300].into_iter().collect()).unwrap();
    let mut tokens: Vec<&str> = text.split(' ').collect();
    tokens.sort();
    assert_eq!(tokens, vec!["1", "20", "300"]);
}

#[test]
fn pairs_string() {
    assert_eq!(make_pairs_string(&HashMap::new()), None);
    assert_eq!(make_pairs_string(&[(5, 7)].into_iter().collect()), Some("5 7".to_string()));
    let text = make_pairs_string(&[(1, 10), (2, 20)].into_iter().collect()).unwrap();
    assert!(text == "1 10 2 20" || text == "2 20 1 10");
}

#[test]
fn pairs_map_keeps_positive() {
    let src: HashMap<u32, i32> = [(1, 5), (2, 0), (3, -4), (4, i32::MAX)].into_iter().collect();
    let expected: HashMap<u32, u32> = [(1, 5), (4, i32::MAX as u32)].into_iter().collect();
    assert_eq!(make_pairs_map(&src), expected);
    assert_eq!(make_pairs_map(&HashMap::new()), HashMap::new());
}

#[test]
fn string_builder_joins_with_spaces() {
    let b = StringBuilder::new();
    assert_eq!(b.result(), "");
    assert_eq!(StringBuilder::new().result_option(), None);
    let mut b = StringBuilder::new();
    b.write(0);
    assert_eq!(b.result_option(), Some("0".to_string()));
    let mut b = StringBuilder::new();
    b.write(12);
    b.write(0);
    b.write(4294967295);
    assert_eq!(b.result(), "12 0 4294967295");
}

#[test]
fn name_forms() {
    assert!(check_name_form("Иван"));
    assert!(check_name_form("ИВАН"));
    assert!(!check_name_form("И"));
    assert!(!check_name_form("Ivan"));
    assert!(!check_name_form("Ив ан"));
    assert!(check_name_extra_form(""));
    assert!(check_name_extra_form("д'Арк-Младший и Ко"));
    assert!(!check_name_extra_form("д'Арк, младший"));
}
