use vstd::prelude::*;
use vstd::string::StringExecFns;
use crate::sums::{all_fit, total};
use crate::system::{mods_views, total_mods, totals_fit, Catalog, Mods, ModsView, System};
use crate::table::Table;
use crate::tags::{merge_all, tag_maps, TagMap, Tags};
use crate::util::{identifier, name_to_id};

verus! {

/// How much of a character a role leaves to the player.
#[derive(Debug, PartialEq, Eq, Structural, Clone, Copy)]
pub enum RoleKind {
    /// The player may still change the looks of the character after it is made.
    Free,
    Normal,
    Special,
}

impl Default for RoleKind {
    fn default() -> (kind: Self)
        ensures
            kind == RoleKind::Normal,
    {
        RoleKind::Normal
    }
}

/// What a character is in the campaign; it is chosen before everything else.
#[derive(Debug)]
pub struct Role {
    pub name: String,
    pub info: Option<String>,
    pub kind: RoleKind,
    /// How many characters may have the role; none means any number.
    pub limit: Option<u32>,
    pub provides: Tags,
    pub mods: Mods,
}

/// Roles that are shown together.
#[derive(Debug)]
pub struct Block {
    pub id: String,
    pub name: String,
    pub info: Option<String>,
    /// The identifiers of the block's roles.
    pub roles: Vec<String>,
}

/// A campaign: the entities and roles to choose from, and the levels that a new
/// character can have.
#[derive(Debug)]
pub struct Campaign {
    pub name: String,
    pub info: String,
    pub system: System,
    pub blocks: Vec<Block>,
    pub roles: Table<Role>,
    /// The level of a character whose selection changes nothing about it.
    pub level_base: u8,
    /// The least level of a new character.
    pub level_min: u8,
    /// The greatest level of a new character.
    pub level_max: u8,
}

/// A role as a mathematical object.
pub struct RoleView {
    pub name: Seq<char>,
    pub info: Option<Seq<char>>,
    pub kind: RoleKind,
    pub limit: Option<u32>,
    pub provides: TagMap,
    pub mods: ModsView,
}

impl View for Role {
    type V = RoleView;

    open spec fn view(&self) -> RoleView {
        RoleView {
            name: self.name@,
            info: match self.info {
                Some(text) => Some(text@),
                None => None,
            },
            kind: self.kind,
            limit: self.limit,
            provides: self.provides@,
            mods: self.mods@,
        }
    }
}

/// A block as a mathematical object.
pub struct BlockView {
    pub id: Seq<char>,
    pub name: Seq<char>,
    pub info: Option<Seq<char>>,
    pub roles: Seq<Seq<char>>,
}

impl View for Block {
    type V = BlockView;

    open spec fn view(&self) -> BlockView {
        BlockView {
            id: self.id@,
            name: self.name@,
            info: match self.info {
                Some(text) => Some(text@),
                None => None,
            },
            roles: Seq::new(self.roles@.len(), |i: int| self.roles@[i]@),
        }
    }
}

/// What every role of a campaign starts from.
#[derive(Debug)]
pub struct RoleTemplate {
    pub kind: RoleKind,
    pub provides: Tags,
    pub mods: Mods,
}

/// A role as the campaign's manifest describes it.
#[derive(Debug)]
pub struct RoleDef {
    /// The role's own identifier; where there is none, it is made from the name.
    pub id: Option<String>,
    pub name: String,
    pub info: Option<String>,
    /// The kind, where it is not that of the template.
    pub kind: Option<RoleKind>,
    pub limit: Option<u32>,
    pub provides: Tags,
    pub mods: Mods,
}

/// A block as the campaign's manifest describes it.
#[derive(Debug)]
pub struct BlockDef {
    /// The block's identifier; where there is none, it is made from the name.
    pub id: Option<String>,
    pub name: String,
    pub info: Option<String>,
    /// The tags that every role of the block provides.
    pub provides: Tags,
    /// What every role of the block changes.
    pub mods: Mods,
    pub roles: Vec<RoleDef>,
}

/// The manifest of a campaign.
#[derive(Debug)]
pub struct ManifestFile {
    pub name: String,
    pub role_template: RoleTemplate,
    pub blocks: Vec<BlockDef>,
    pub level_base: u8,
    pub level_min: u8,
    pub level_max: u8,
}

/// The identifier that is given, or else the one made from the name.
pub open spec fn id_or_name(id: Option<String>, name: String) -> Seq<char> {
    match id {
        Some(id) => id@,
        None => identifier(name@),
    }
}

/// The store that holds `name` alone, with weight 1.
pub open spec fn marker(name: Seq<char>) -> TagMap {
    Map::<Seq<char>, int>::empty().insert(name, 1)
}

impl BlockDef {
    /// The identifier of the block.
    pub open spec fn block_id(self) -> Seq<char> {
        id_or_name(self.id, self.name)
    }

    /// The identifier of the role at `j`: that of the block, an underscore, and the
    /// role's own.
    pub open spec fn role_id(self, j: int) -> Seq<char> {
        self.block_id() + "_"@ + id_or_name(self.roles@[j].id, self.roles@[j].name)
    }

    /// What is merged into the tags of the role at `j`: the tags of the template and
    /// of the block, a marker of the block and a marker of the role.
    pub open spec fn role_tag_parts(self, template: RoleTemplate, j: int) -> Seq<TagMap> {
        seq![
            template.provides@,
            self.provides@,
            marker("block/"@ + self.block_id()),
            marker("role/"@ + self.role_id(j)),
        ]
    }

    /// What the role at `j` changes, then the template, then the block.
    pub open spec fn role_mods_parts(self, template: RoleTemplate, j: int) -> Seq<ModsView> {
        seq![self.roles@[j].mods@, template.mods@, self.mods@]
    }

    /// A sum for the role at `j` leaves the 32-bit range.
    pub open spec fn role_overflows(self, template: RoleTemplate, j: int) -> bool {
        !all_fit(self.roles@[j].provides@, self.role_tag_parts(template, j)) || !totals_fit(
            self.role_mods_parts(template, j),
        )
    }

    /// The role at `j` as the campaign has it.
    pub open spec fn role(self, template: RoleTemplate, j: int) -> RoleView {
        let def = self.roles@[j];
        RoleView {
            name: def.name@,
            info: match def.info {
                Some(text) => Some(text@),
                None => None,
            },
            kind: match def.kind {
                Some(kind) => kind,
                None => template.kind,
            },
            limit: def.limit,
            provides: total(def.provides@, self.role_tag_parts(template, j)),
            mods: total_mods(self.role_mods_parts(template, j)),
        }
    }

    /// The block as the campaign has it.
    pub open spec fn block(self) -> BlockView {
        BlockView {
            id: self.block_id(),
            name: self.name@,
            info: match self.info {
                Some(text) => Some(text@),
                None => None,
            },
            roles: Seq::new(self.roles@.len(), |j: int| self.role_id(j)),
        }
    }

    /// The roles of a campaign after the first `n` roles of the block have been put
    /// among `before`; a role put later replaces one of the same identifier.
    pub open spec fn roles_put(
        self,
        template: RoleTemplate,
        before: Map<Seq<char>, RoleView>,
        n: int,
    ) -> Map<Seq<char>, RoleView>
        decreases n,
    {
        if n <= 0 {
            before
        } else {
            self.roles_put(template, before, n - 1).insert(
                self.role_id(n - 1),
                self.role(template, n - 1),
            )
        }
    }
}

/// The roles of the blocks, by identifier.
pub open spec fn roles_of(template: RoleTemplate, blocks: Seq<BlockDef>) -> Map<
    Seq<char>,
    RoleView,
>
    decreases blocks.len(),
{
    if blocks.len() == 0 {
        Map::empty()
    } else {
        blocks.last().roles_put(
            template,
            roles_of(template, blocks.drop_last()),
            blocks.last().roles@.len() as int,
        )
    }
}

/// A sum for one of the roles leaves the 32-bit range.
pub open spec fn roles_overflow(template: RoleTemplate, blocks: Seq<BlockDef>) -> bool {
    exists|i: int, j: int|
        0 <= i < blocks.len() && 0 <= j < blocks[i].roles@.len() && #[trigger] blocks[i].role_overflows(
            template,
            j,
        )
}

/// The roles of a table as mathematical objects.
pub open spec fn role_views(roles: Map<Seq<char>, Role>) -> Map<Seq<char>, RoleView> {
    roles.map_values(|role: Role| role@)
}

/// The blocks as mathematical objects.
pub open spec fn block_views(blocks: Seq<Block>) -> Seq<BlockView> {
    Seq::new(blocks.len(), |i: int| blocks[i]@)
}

/// The layers of a catalog put together: the first layer, filled up from each
/// later one in turn.
pub open spec fn layered(layers: Seq<Catalog>) -> Catalog
    decreases layers.len(),
{
    if layers.len() == 0 {
        Catalog {
            race: Map::empty(),
            class: Map::empty(),
            armor: Map::empty(),
            weapon: Map::empty(),
            traits: Map::empty(),
            location: Map::empty(),
        }
    } else {
        layered(layers.drop_last()).filled(layers.last())
    }
}

/// The catalogs of the systems.
pub open spec fn catalogs(layers: Seq<System>) -> Seq<Catalog> {
    Seq::new(layers.len(), |i: int| layers[i]@)
}

/// Puts the layers of a system together. An entity of an earlier layer stands
/// whatever the later ones hold under its identifier.
pub fn load_system(layers: Vec<System>) -> (system: System)
    ensures
        system@ == layered(catalogs(layers@)),
{
    let ghost all = catalogs(layers@);
    let ghost mut done: int = 0;
    let mut system = System::new();
    assert(all.take(0) =~= Seq::<Catalog>::empty());
    assert(system@ =~~= layered(all.take(0)));
    for layer in it: layers
        invariant
            it.seq() == layers@,
            all == catalogs(layers@),
            done == it.index(),
            system@ == layered(all.take(done)),
    {
        proof {
            assert(all.take(done + 1).drop_last() =~= all.take(done));
            assert(all.take(done + 1).last() == layer@);
        }
        system.merge_in(layer);
        proof {
            done = done + 1;
        }
    }
    assert(all.take(all.len() as int) =~= all);
    system
}

/// The store that holds the name made of `prefix` and `id` alone, with weight 1.
fn mark(prefix: &str, id: &str) -> (tags: Tags)
    ensures
        tags@ == marker(prefix@ + id@),
{
    let mut name = String::from_str(prefix);
    name.append(id);
    let mut tags = Tags::new();
    tags.add(name.as_str(), 1);
    assert(tags@ =~= marker(prefix@ + id@));
    tags
}

/// The identifier that is given, or else the one made from the name.
fn own_id(id: Option<String>, name: &String) -> (out: String)
    ensures
        out@ == id_or_name(id, *name),
{
    match id {
        Some(id) => id,
        None => name_to_id(name.as_str()),
    }
}

/// Makes the campaign out of its manifest, its description and its system: every
/// role gets the identifier of its block before its own, the kind of the template
/// unless it has one, and, merged into its own, the tags and changes of the template
/// and of its block, and a marker for the block and for itself. Nothing where a sum
/// leaves the 32-bit range.
pub fn try_load_campaign(manifest: ManifestFile, info: String, system: System) -> (out: Option<
    Campaign,
>)
    ensures
        match out {
            Some(campaign) => {
                &&& !roles_overflow(manifest.role_template, manifest.blocks@)
                &&& campaign.name == manifest.name
                &&& campaign.info == info
                &&& campaign.system == system
                &&& block_views(campaign.blocks@) == Seq::new(
                    manifest.blocks@.len(),
                    |i: int| manifest.blocks@[i].block(),
                )
                &&& role_views(campaign.roles@) == roles_of(manifest.role_template, manifest.blocks@)
                &&& campaign.level_base == manifest.level_base
                &&& campaign.level_min == manifest.level_min
                &&& campaign.level_max == manifest.level_max
            },
            None => roles_overflow(manifest.role_template, manifest.blocks@),
        },
{
    let ghost all = manifest.blocks@;
    let template = manifest.role_template;
    let mut blocks: Vec<Block> = Vec::new();
    let mut roles: Table<Role> = Table::new();
    let ghost mut i: int = 0;
    proof {
        assert(all.take(0) =~= Seq::<BlockDef>::empty());
        assert(role_views(roles@) =~= roles_of(template, all.take(0)));
        assert(block_views(blocks@) =~= Seq::new(0, |k: int| all[k].block()));
    }
    for block in outer: manifest.blocks
        invariant
            outer.seq() == all,
            all == manifest.blocks@,
            template == manifest.role_template,
            i == outer.index(),
            role_views(roles@) == roles_of(template, all.take(i)),
            block_views(blocks@) == Seq::new(i as nat, |k: int| all[k].block()),
            forall|k: int, j: int|
                0 <= k < i && 0 <= j < all[k].roles@.len() ==> !#[trigger] all[k].role_overflows(
                    template,
                    j,
                ),
    {
        let ghost def = block;
        let ghost before = roles_of(template, all.take(i));
        let BlockDef { id, name, info: block_info, provides, mods, roles: defs } = block;
        let block_id = own_id(id, &name);
        let block_tag = mark("block/", block_id.as_str());
        let mut block_roles: Vec<String> = Vec::new();
        let ghost mut j: int = 0;
        proof {
            assert(def == all[i]);
            assert(block_id@ == def.block_id());
            assert(Seq::new(block_roles@.len(), |k: int| block_roles@[k]@) =~= Seq::new(
                0,
                |k: int| def.role_id(k),
            ));
        }
        for role in inner: defs
            invariant
                inner.seq() == def.roles@,
                all == manifest.blocks@,
                template == manifest.role_template,
                j == inner.index(),
                block_id@ == def.block_id(),
                block_tag@ == marker("block/"@ + def.block_id()),
                provides == def.provides,
                mods == def.mods,
                role_views(roles@) == def.roles_put(template, before, j),
                Seq::new(block_roles@.len(), |k: int| block_roles@[k]@) == Seq::new(
                    j as nat,
                    |k: int| def.role_id(k),
                ),
                forall|k: int| 0 <= k < j ==> !#[trigger] def.role_overflows(template, k),
                0 <= i < all.len(),
                def == all[i],
        {
            let ghost role_def = role;
            assert(role_def == def.roles@[j]);
            let RoleDef {
                id: role_id,
                name: role_name,
                info: role_info,
                kind: role_kind,
                limit,
                provides: role_provides,
                mods: role_mods,
            } = role;
            let part = own_id(role_id, &role_name);
            let mut id = block_id.clone();
            id.append("_");
            id.append(part.as_str());
            assert(id@ == def.role_id(j));
            let role_tag = mark("role/", id.as_str());
            let kind = match role_kind {
                Some(kind) => kind,
                None => template.kind,
            };
            let mut mods_parts: Vec<&Mods> = Vec::new();
            mods_parts.push(&role_mods);
            mods_parts.push(&template.mods);
            mods_parts.push(&mods);
            assert(mods_views(mods_parts@) =~= def.role_mods_parts(template, j));
            let sum = match Mods::checked_join(mods_parts.as_slice()) {
                Some(sum) => sum,
                None => {
                    assert(all[i].role_overflows(template, j));
                    return None;
                },
            };
            let mut tag_parts: Vec<&Tags> = Vec::new();
            tag_parts.push(&template.provides);
            tag_parts.push(&provides);
            tag_parts.push(&block_tag);
            tag_parts.push(&role_tag);
            assert(tag_maps(tag_parts@) =~= def.role_tag_parts(template, j));
            let tags = match merge_all(role_provides, tag_parts.as_slice()) {
                Some(tags) => tags,
                None => {
                    assert(all[i].role_overflows(template, j));
                    return None;
                },
            };
            let compiled = Role {
                name: role_name,
                info: role_info,
                kind,
                limit,
                provides: tags,
                mods: sum,
            };
            proof {
                assert(compiled@ == def.role(template, j));
                assert(!def.role_overflows(template, j));
            }
            let ghost listed = Seq::new(block_roles@.len(), |k: int| block_roles@[k]@);
            block_roles.push(id.clone());
            let ghost held = roles@;
            roles.put(id.as_str(), compiled);
            proof {
                assert(role_views(roles@) =~= role_views(held).insert(id@, compiled@));
                assert(Seq::new(block_roles@.len(), |k: int| block_roles@[k]@) =~= listed.push(
                    id@,
                ));
                assert(listed.push(id@) =~= Seq::new((j + 1) as nat, |k: int| def.role_id(k)));
                j = j + 1;
            }
        }
        let compiled = Block { id: block_id, name, info: block_info, roles: block_roles };
        proof {
            assert(compiled@ == def.block());
            assert(all.take(i + 1).drop_last() =~= all.take(i));
            assert(all.take(i + 1).last() == def);
        }
        let ghost listed = block_views(blocks@);
        blocks.push(compiled);
        proof {
            assert(block_views(blocks@) =~= listed.push(def.block()));
            assert(listed.push(def.block()) =~= Seq::new((i + 1) as nat, |k: int| all[k].block()));
            i = i + 1;
        }
    }
    proof {
        assert(all.take(all.len() as int) =~= all);
    }
    Some(
        Campaign {
            name: manifest.name,
            info,
            system,
            blocks,
            roles,
            level_base: manifest.level_base,
            level_min: manifest.level_min,
            level_max: manifest.level_max,
        },
    )
}

/// Makes the campaign out of its manifest, its description and its system.
pub fn load_campaign(manifest: ManifestFile, info: String, system: System) -> (campaign: Campaign)
    requires
        !roles_overflow(manifest.role_template, manifest.blocks@),
    ensures
        campaign.name == manifest.name,
        campaign.info == info,
        campaign.system == system,
        block_views(campaign.blocks@) == Seq::new(
            manifest.blocks@.len(),
            |i: int| manifest.blocks@[i].block(),
        ),
        role_views(campaign.roles@) == roles_of(manifest.role_template, manifest.blocks@),
        campaign.level_base == manifest.level_base,
        campaign.level_min == manifest.level_min,
        campaign.level_max == manifest.level_max,
{
    try_load_campaign(manifest, info, system).unwrap()
}

} // verus!
