use terra::campaign::{
    load_campaign, load_system, try_load_campaign, BlockDef, ManifestFile, RoleDef, RoleKind,
    RoleTemplate,
};
use terra::system::{Filter, Metadata, Mods, Race, System};
use terra::tags::Tags;

fn tags(entries: &[(&str, i32)]) -> Tags {
    let mut t = Tags::new();
    for (name, value) in entries {
        t.add(name, *value);
    }
    t
}

fn money(amount: i32) -> Mods {
    let mut m = Mods::new();
    m.money = amount;
    m
}

fn role(id: Option<&str>, name: &str, kind: Option<RoleKind>, provides: &[(&str, i32)], mods: Mods) -> RoleDef {
    RoleDef {
        id: id.map(|s| s.to_string()),
        name: name.to_string(),
        info: Some(format!("about {}", name)),
        kind,
        limit: Some(3),
        provides: tags(provides),
        mods,
    }
}

fn manifest() -> ManifestFile {
    ManifestFile {
        name: "Campaign".to_string(),
        role_template: RoleTemplate { kind: RoleKind::Special, provides: tags(&[("common", 1), ("rank", 1)]), mods: money(10) },
        blocks: vec![
            BlockDef {
                id: None,
                name: "City Guard".to_string(),
                info: Some("the guard".to_string()),
                provides: tags(&[("guard", 1), ("rank", 2)]),
                mods: money(5),
                roles: vec![
                    role(None, "Night Watch!", None, &[("rank", 4)], money(100)),
                    role(Some("cap"), "Captain", Some(RoleKind::Free), &[], Mods::new()),
                ],
            },
            BlockDef {
                id: Some("x".to_string()),
                name: "Others".to_string(),
                info: None,
                provides: Tags::new(),
                mods: Mods::new(),
                roles: vec![
                    role(Some("a"), "First", Some(RoleKind::Normal), &[("first", 1)], money(1)),
                    role(Some("a"), "Second", None, &[("second", 1)], money(2)),
                ],
            },
            BlockDef { id: None, name: "Empty".to_string(), info: None, provides: Tags::new(), mods: Mods::new(), roles: vec![] },
        ],
        level_base: 2,
        level_min: 1,
        level_max: 60,
    }
}

fn race(name: &str, game_id: u8) -> Race {
    Race {
        meta: Metadata {
            name: name.to_string(),
            name_female: None,
            info: None,
            preview: None,
            requires: None,
            provides: Tags::new(),
            order: 0,
        },
        game_id,
        gender: Filter::Pass,
        classes: Filter::Pass,
        mods: Mods::new(),
    }
}

#[test]
fn campaign_is_compiled_from_manifest() {
    let mut system = System::new();
    system.race.put("human", race("Human", 1));
    let c = load_campaign(manifest(), "<p>info</p>".to_string(), system);
    assert_eq!(c.name, "Campaign");
    assert_eq!(c.info, "<p>info</p>");
    assert_eq!(c.system.race.len(), 1);
    assert_eq!((c.level_base, c.level_min, c.level_max), (2, 1, 60));
    assert_eq!(c.blocks.len(), 3);
    assert_eq!(c.blocks[0].id, "city_guard");
    assert_eq!(c.blocks[0].name, "City Guard");
    assert_eq!(c.blocks[0].info, Some("the guard".to_string()));
    assert_eq!(c.blocks[0].roles, vec!["city_guard_night_watch".to_string(), "city_guard_cap".to_string()]);
    assert_eq!(c.blocks[1].id, "x");
    assert_eq!(c.blocks[1].roles, vec!["x_a".to_string(), "x_a".to_string()]);
    assert_eq!(c.blocks[2].id, "empty");
    assert!(c.blocks[2].roles.is_empty());
    assert_eq!(c.roles.len(), 3);

    let watch = c.roles.get("city_guard_night_watch").unwrap();
    assert_eq!(watch.name, "Night Watch!");
    assert_eq!(watch.info, Some("about Night Watch!".to_string()));
    assert_eq!(watch.kind, RoleKind::Special);
    assert_eq!(watch.limit, Some(3));
    assert_eq!(watch.mods.money, 115);
    assert_eq!(watch.provides.value("rank"), 7);
    assert_eq!(watch.provides.value("common"), 1);
    assert_eq!(watch.provides.value("guard"), 1);
    assert_eq!(watch.provides.value("block/city_guard"), 1);
    assert_eq!(watch.provides.value("role/city_guard_night_watch"), 1);
    assert!(!watch.provides.has("role/city_guard_cap"));

    let cap = c.roles.get("city_guard_cap").unwrap();
    assert_eq!(cap.kind, RoleKind::Free);
    assert_eq!(cap.mods.money, 15);
    assert_eq!(cap.provides.value("rank"), 3);
    assert_eq!(cap.provides.value("role/city_guard_cap"), 1);

    let last = c.roles.get("x_a").unwrap();
    assert_eq!(last.name, "Second");
    assert_eq!(last.kind, RoleKind::Special);
    assert_eq!(last.mods.money, 12);
    assert!(last.provides.has("second"));
    assert!(!last.provides.has("first"));
    assert_eq!(last.provides.value("block/x"), 1);
    assert_eq!(last.provides.value("role/x_a"), 1);
}

#[test]
fn marker_adds_to_a_tag_of_the_same_name() {
    let mut m = manifest();
    m.blocks[1].roles[1].provides.add("role/x_a", 41);
    m.blocks[1].provides.add("block/x", -1);
    let c = load_campaign(m, String::new(), System::new());
    let role = c.roles.get("x_a").unwrap();
    assert_eq!(role.provides.value("role/x_a"), 42);
    assert_eq!(role.provides.value("block/x"), 0);
    assert!(role.provides.has("block/x"));
}

#[test]
fn campaign_overflow_is_reported_as_nothing() {
    assert!(try_load_campaign(manifest(), String::new(), System::new()).is_some());
    let mut m = manifest();
    m.blocks[0].roles[1].mods.money = i32::MAX - 14;
    assert!(try_load_campaign(m, String::new(), System::new()).is_none());
    let mut m = manifest();
    m.blocks[0].roles[1].mods.money = i32::MAX - 15;
    assert_eq!(try_load_campaign(m, String::new(), System::new()).unwrap().roles.get("city_guard_cap").unwrap().mods.money, i32::MAX);
    let mut m = manifest();
    m.blocks[1].roles[0].provides.add("role/x_a", i32::MAX);
    assert!(try_load_campaign(m, String::new(), System::new()).is_none());
    let mut m = manifest();
    m.blocks[0].roles[0].provides.add("rank", i32::MAX - 7);
    let c = try_load_campaign(m, String::new(), System::new()).unwrap();
    assert_eq!(c.roles.get("city_guard_night_watch").unwrap().provides.value("rank"), i32::MAX);
    let mut m = manifest();
    m.blocks[0].roles[0].provides.add("rank", i32::MAX - 6);
    assert!(try_load_campaign(m, String::new(), System::new()).is_none());
}

#[test]
fn default_role_kind_is_normal() {
    assert_eq!(RoleKind::default(), RoleKind::Normal);
}

#[test]
fn system_layers_fill_gaps_only() {
    let mut own = System::new();
    own.race.put("human", race("Own human", 1));
    let mut middle = System::new();
    middle.race.put("human", race("Middle human", 2));
    middle.race.put("orc", race("Middle orc", 3));
    let mut base = System::new();
    base.race.put("orc", race("Base orc", 4));
    base.race.put("elf", race("Base elf", 5));
    let system = load_system(vec![own, middle, base]);
    assert_eq!(system.race.len(), 3);
    assert_eq!(system.race.get("human").unwrap().game_id, 1);
    assert_eq!(system.race.get("orc").unwrap().game_id, 3);
    assert_eq!(system.race.get("elf").unwrap().game_id, 5);
    assert_eq!(system.race.name_at(0), "human");
    assert_eq!(system.race.name_at(1), "orc");
    assert_eq!(system.race.name_at(2), "elf");
    assert_eq!(load_system(vec![]).race.len(), 0);
}
