//! The catalogue of what can be spawned.

use vstd::prelude::*;
use bracket_lib::prelude::RandomNumberGenerator;
use crate::components::{
    spec_cp437, spec_unseen, spec_white_on_black, to_cp437, ChasingPlayer, Color, ColorPair, Damage, Enemy, Entity,
    FieldOfView, Health, Item, Name, ProvidesDungeonMap, ProvidesHealing, ProvidesStun, Render,
    Weapon,
};
use crate::geometry::Point;
use crate::random;
use crate::world::{spec_bare, EntityRecord, EntityView, World, WorldView};

verus! {

/// How far a spawned enemy sees.
pub const ENEMY_SIGHT: i32 = 6;

/// The kinds of things in the catalogue.
#[derive(Clone, Copy, Debug, PartialEq, Eq, Structural)]
pub enum EntityType {
    Enemy,
    Item,
}

/// An entry of the catalogue.
#[derive(Clone, Debug)]
pub struct Template {
    pub entity_type: EntityType,
    pub name: String,
    pub glyph: char,
    /// The tiers on which the entry is spawned.
    pub levels: Vec<usize>,
    /// The weight of the entry when one is drawn.
    pub frequency: i32,
    /// The effects of an item, each by its name and its strength.
    pub provides: Option<Vec<(String, i32)>>,
    pub hp: Option<i32>,
    pub base_damage: Option<i32>,
}

/// The catalogue.
#[derive(Clone, Debug)]
pub struct Templates {
    pub entities: Vec<Template>,
}

/// The effects of an entry; none where it names none.
pub open spec fn spec_effects(t: Template) -> Seq<(String, i32)> {
    match t.provides {
        Some(effects) => effects@,
        None => Seq::empty(),
    }
}

/// The healing among the first `n` effects: the last named wins.
pub open spec fn spec_healing(effects: Seq<(String, i32)>, n: nat) -> Option<ProvidesHealing>
    decreases n,
{
    if n == 0 {
        None
    } else if effects[n - 1].0@ == "Healing"@ {
        Some(ProvidesHealing { amount: effects[n - 1].1 })
    } else {
        spec_healing(effects, (n - 1) as nat)
    }
}

/// Whether one of the first `n` effects has the name `name`.
pub open spec fn spec_names_effect(effects: Seq<(String, i32)>, name: Seq<char>, n: nat) -> bool
    decreases n,
{
    if n == 0 {
        false
    } else {
        effects[n - 1].0@ == name || spec_names_effect(effects, name, (n - 1) as nat)
    }
}

/// Whether an entry can be spawned: an enemy needs hit points.
pub open spec fn spec_template_ok(t: Template) -> bool {
    t.entity_type == EntityType::Enemy ==> t.hp is Some
}

/// The entity that an entry spawns at `pt`.
pub open spec fn spec_spawned(t: Template, pt: Point) -> EntityView {
    let effects = spec_effects(t);
    let enemy = t.entity_type == EntityType::Enemy;
    EntityView {
        position: Some(pt),
        render: Some(Render { color: spec_white_on_black(), glyph: spec_cp437(t.glyph) }),
        name: Some(t.name@),
        item: if enemy {
            None
        } else {
            Some(Item)
        },
        enemy: if enemy {
            Some(Enemy)
        } else {
            None
        },
        field_of_view: if enemy {
            Some(spec_unseen(ENEMY_SIGHT))
        } else {
            None
        },
        chasing_player: if enemy {
            Some(ChasingPlayer)
        } else {
            None
        },
        health: if enemy {
            Some(Health { current: t.hp.unwrap(), max: t.hp.unwrap() })
        } else {
            None
        },
        provides_healing: spec_healing(effects, effects.len()),
        provides_dungeon_map: if spec_names_effect(effects, "MagicMap"@, effects.len()) {
            Some(ProvidesDungeonMap)
        } else {
            None
        },
        provides_stun: if spec_names_effect(effects, "GroundStomp"@, effects.len()) {
            Some(ProvidesStun)
        } else {
            None
        },
        damage: match t.base_damage {
            Some(d) => Some(Damage(d)),
            None => None,
        },
        weapon: if t.base_damage is Some && !enemy {
            Some(Weapon)
        } else {
            None
        },
        ..spec_bare()
    }
}

/// The weight of an entry on a tier: its frequency where it is spawned on
/// the tier and, when only monsters are drawn, is an enemy; else nothing.
pub open spec fn spec_weight(t: Template, level: usize, monsters_only: bool) -> nat {
    if t.levels@.contains(level) && (!monsters_only || t.entity_type == EntityType::Enemy)
        && t.frequency > 0 {
        t.frequency as nat
    } else {
        0
    }
}

/// The weights of the first `n` entries together.
pub open spec fn spec_total_weight(
    entries: Seq<Template>,
    level: usize,
    monsters_only: bool,
    n: nat,
) -> nat
    decreases n,
{
    if n == 0 {
        0
    } else {
        spec_total_weight(entries, level, monsters_only, (n - 1) as nat) + spec_weight(
            entries[n - 1],
            level,
            monsters_only,
        )
    }
}

/// The entry among the first `n` that the number `ticket` draws: with the
/// entries laid side by side, each as wide as its weight, the one on which
/// the ticket falls.
pub open spec fn spec_drawn(
    entries: Seq<Template>,
    level: usize,
    monsters_only: bool,
    ticket: nat,
    n: nat,
) -> Option<int>
    decreases n,
{
    if n == 0 {
        None
    } else {
        let before = spec_total_weight(entries, level, monsters_only, (n - 1) as nat);
        if ticket < before {
            spec_drawn(entries, level, monsters_only, ticket, (n - 1) as nat)
        } else if ticket < before + spec_weight(entries[n - 1], level, monsters_only) {
            Some(n - 1)
        } else {
            None
        }
    }
}

/// Whether `pick` can come out of a draw: an entry with weight, or none
/// where the weights come to nothing or to more than a draw can span.
pub open spec fn spec_pickable(
    entries: Seq<Template>,
    level: usize,
    monsters_only: bool,
    pick: Option<int>,
) -> bool {
    let total = spec_total_weight(entries, level, monsters_only, entries.len());
    match pick {
        Some(k) => 0 < total < i32::MAX && exists|ticket: nat|
            ticket < total && #[trigger] spec_drawn(
                entries,
                level,
                monsters_only,
                ticket,
                entries.len(),
            ) == Some(k),
        None => total == 0 || total >= i32::MAX,
    }
}

/// An entry that a ticket draws is there and has weight.
pub proof fn lemma_drawn_has_weight(
    entries: Seq<Template>,
    level: usize,
    monsters_only: bool,
    ticket: nat,
    n: nat,
)
    requires
        n <= entries.len(),
    ensures
        match spec_drawn(entries, level, monsters_only, ticket, n) {
            Some(k) => 0 <= k < n && spec_weight(entries[k], level, monsters_only) > 0,
            None => ticket >= spec_total_weight(entries, level, monsters_only, n),
        },
    decreases n,
{
    if n > 0 {
        lemma_drawn_has_weight(entries, level, monsters_only, ticket, (n - 1) as nat);
    }
}

fn on_level(t: &Template, level: usize) -> (b: bool)
    ensures
        b == t.levels@.contains(level),
{
    let mut k: usize = 0;
    while k < t.levels.len()
        invariant
            k <= t.levels@.len(),
            forall|j: int| 0 <= j < k ==> t.levels@[j] != level,
        decreases t.levels@.len() - k,
    {
        if t.levels[k] == level {
            return true;
        }
        k += 1;
    }
    false
}

fn weight(t: &Template, level: usize, monsters_only: bool) -> (w: u32)
    ensures
        w == spec_weight(*t, level, monsters_only),
{
    if on_level(t, level) && (!monsters_only || t.entity_type == EntityType::Enemy) && t.frequency
        > 0 {
        t.frequency as u32
    } else {
        0
    }
}

impl Templates {
    /// Whether every entry of the catalogue can be spawned.
    pub open spec fn wf(&self) -> bool {
        forall|k: int| 0 <= k < self.entities@.len() ==> spec_template_ok(#[trigger] self.entities@[k])
    }

    /// The weights of all entries together.
    pub fn total_weight(&self, level: usize, monsters_only: bool) -> (total: u128)
        ensures
            total == spec_total_weight(self.entities@, level, monsters_only, self.entities@.len()),
    {
        let mut total: u128 = 0;
        let mut k: usize = 0;
        while k < self.entities.len()
            invariant
                k <= self.entities@.len(),
                total == spec_total_weight(self.entities@, level, monsters_only, k as nat),
                total <= k * 0x8000_0000,
            decreases self.entities@.len() - k,
        {
            total = total + weight(&self.entities[k], level, monsters_only) as u128;
            k += 1;
        }
        total
    }

    /// The entry that the number `ticket` draws.
    pub fn drawn(&self, level: usize, monsters_only: bool, ticket: u128) -> (r: Option<usize>)
        ensures
            match r {
                Some(k) => spec_drawn(
                    self.entities@,
                    level,
                    monsters_only,
                    ticket as nat,
                    self.entities@.len(),
                ) == Some(k as int) && k < self.entities@.len(),
                None => spec_drawn(
                    self.entities@,
                    level,
                    monsters_only,
                    ticket as nat,
                    self.entities@.len(),
                ) is None,
            },
    {
        let mut before: u128 = 0;
        let mut found: Option<usize> = None;
        let mut k: usize = 0;
        while k < self.entities.len()
            invariant
                k <= self.entities@.len(),
                before == spec_total_weight(self.entities@, level, monsters_only, k as nat),
                before <= k * 0x8000_0000,
                match found {
                    Some(f) => f < k && spec_drawn(
                        self.entities@,
                        level,
                        monsters_only,
                        ticket as nat,
                        k as nat,
                    ) == Some(f as int),
                    None => spec_drawn(
                        self.entities@,
                        level,
                        monsters_only,
                        ticket as nat,
                        k as nat,
                    ) is None,
                },
                found is None ==> ticket >= before,
            decreases self.entities@.len() - k,
        {
            let w = weight(&self.entities[k], level, monsters_only) as u128;
            proof {
                lemma_drawn_has_weight(
                    self.entities@,
                    level,
                    monsters_only,
                    ticket as nat,
                    k as nat,
                );
            }
            if found.is_none() && ticket < before + w {
                found = Some(k);
            }
            before = before + w;
            k += 1;
        }
        found
    }

    /// Draws an entry, each with the chance that its weight gives it.
    pub fn draw(&self, rng: &mut RandomNumberGenerator, level: usize, monsters_only: bool) -> (r:
        Option<usize>)
        ensures
            spec_pickable(
                self.entities@,
                level,
                monsters_only,
                match r {
                    Some(k) => Some(k as int),
                    None => None,
                },
            ),
            r is Some ==> r.unwrap() < self.entities@.len(),
    {
        let total = self.total_weight(level, monsters_only);
        if total == 0 || total >= i32::MAX as u128 {
            return None;
        }
        let ticket: u128 = if total == 1 {
            0
        } else {
            (random::roll_dice(rng, 1, total as i32) - 1) as u128
        };
        let r = self.drawn(level, monsters_only, ticket);
        proof {
            lemma_drawn_has_weight(
                self.entities@,
                level,
                monsters_only,
                ticket as nat,
                self.entities@.len(),
            );
        }
        r
    }

    /// Spawns an entry of the catalogue at `pt`.
    pub fn spawn_entity(&self, pt: &Point, template: &Template, ecs: &mut World) -> (e: Entity)
        requires
            spec_template_ok(*template),
            old(ecs).entities@.len() < usize::MAX,
        ensures
            e.0 == old(ecs)@.entities.len(),
            final(ecs)@ == (WorldView {
                entities: old(ecs)@.entities.push(spec_spawned(*template, *pt)),
                ..old(ecs)@
            }),
    {
        let mut record = EntityRecord::new();
        record.position = Some(*pt);
        record.render = Some(
            Render {
                color: ColorPair::new(Color::white(), Color::black()),
                glyph: to_cp437(template.glyph),
            },
        );
        record.name = Some(Name(template.name.clone()));
        match template.entity_type {
            EntityType::Item => {
                record.item = Some(Item {  });
            },
            EntityType::Enemy => {
                record.enemy = Some(Enemy {  });
                record.field_of_view = Some(FieldOfView::new(ENEMY_SIGHT));
                record.chasing_player = Some(ChasingPlayer);
                let hp = template.hp.unwrap();
                record.health = Some(Health { current: hp, max: hp });
            },
        }
        match template.base_damage {
            Some(damage) => {
                record.damage = Some(Damage(damage));
                if template.entity_type == EntityType::Item {
                    record.weapon = Some(Weapon {  });
                }
            },
            None => {},
        }
        match &template.provides {
            Some(effects) => {
                let healing = "Healing".to_owned();
                let magic_map = "MagicMap".to_owned();
                let ground_stomp = "GroundStomp".to_owned();
                let mut k: usize = 0;
                while k < effects.len()
                    invariant
                        k <= effects@.len(),
                        healing@ == "Healing"@,
                        magic_map@ == "MagicMap"@,
                        ground_stomp@ == "GroundStomp"@,
                        record.provides_healing == spec_healing(effects@, k as nat),
                        record.provides_dungeon_map is Some == spec_names_effect(
                            effects@,
                            "MagicMap"@,
                            k as nat,
                        ),
                        record.provides_stun is Some == spec_names_effect(
                            effects@,
                            "GroundStomp"@,
                            k as nat,
                        ),
                        record@ == (EntityView {
                            provides_healing: record.provides_healing,
                            provides_dungeon_map: record.provides_dungeon_map,
                            provides_stun: record.provides_stun,
                            ..spec_spawned(*template, *pt)
                        }),
                    decreases effects@.len() - k,
                {
                    let effect = &effects[k];
                    if effect.0 == healing {
                        record.provides_healing = Some(ProvidesHealing { amount: effect.1 });
                    } else if effect.0 == magic_map {
                        record.provides_dungeon_map = Some(ProvidesDungeonMap {  });
                    } else if effect.0 == ground_stomp {
                        record.provides_stun = Some(ProvidesStun {  });
                    }
                    proof {
                        reveal_strlit("Healing");
                        reveal_strlit("MagicMap");
                        reveal_strlit("GroundStomp");
                        assert("Healing"@ != "MagicMap"@) by {
                            assert("Healing"@.len() != "MagicMap"@.len());
                        }
                        assert("Healing"@ != "GroundStomp"@) by {
                            assert("Healing"@.len() != "GroundStomp"@.len());
                        }
                        assert("MagicMap"@ != "GroundStomp"@) by {
                            assert("MagicMap"@.len() != "GroundStomp"@.len());
                        }
                    }
                    k += 1;
                }
                proof {
                    let spawned = spec_spawned(*template, *pt);
                    assert(spec_effects(*template) == effects@);
                    assert(record@.provides_healing == spawned.provides_healing);
                    assert(record@.provides_dungeon_map == spawned.provides_dungeon_map);
                    assert(record@.provides_stun == spawned.provides_stun);
                    assert(record@ == spawned);
                }
            },
            None => {
                assert(record@ == spec_spawned(*template, *pt));
            },
        }
        ecs.push(record)
    }

    /// Fills a level: at every planned place something is drawn from the
    /// entries of the tier and spawned, and at every place that asks for a
    /// monster one is drawn from the tier's enemies. Where nothing can be
    /// drawn the place stays empty.
    pub fn spawn_entities(
        &self,
        ecs: &mut World,
        rng: &mut RandomNumberGenerator,
        level: usize,
        spawn_points: &Vec<Point>,
        guaranteed_monster_spawn_points: &Vec<Point>,
    )
        requires
            self.wf(),
            old(ecs).entities@.len() + spawn_points@.len() + guaranteed_monster_spawn_points@.len()
                < usize::MAX,
        ensures
            exists|picks: Seq<Option<int>>|
                {
                    &&& picks.len() == spawn_points@.len() + guaranteed_monster_spawn_points@.len()
                    &&& forall|k: int|
                        0 <= k < picks.len() ==> spec_pickable(
                            self.entities@,
                            level,
                            k >= spawn_points@.len(),
                            #[trigger] picks[k],
                        )
                    &&& final(ecs)@ == #[trigger] spec_spawn_all(
                        old(ecs)@,
                        self.entities@,
                        spawn_points@ + guaranteed_monster_spawn_points@,
                        picks,
                        picks.len(),
                    )
                },
    {
        let ghost places = spawn_points@ + guaranteed_monster_spawn_points@;
        let ghost mut picks: Seq<Option<int>> = Seq::empty();
        let ghost before = ecs@;
        let mut k: usize = 0;
        while k < spawn_points.len()
            invariant
                k <= spawn_points@.len(),
                self.wf(),
                before == old(ecs)@,
                places == spawn_points@ + guaranteed_monster_spawn_points@,
                old(ecs).entities@.len() + spawn_points@.len()
                    + guaranteed_monster_spawn_points@.len() < usize::MAX,
                ecs.entities@.len() <= old(ecs).entities@.len() + k,
                picks.len() == k,
                forall|j: int|
                    0 <= j < picks.len() ==> spec_pickable(
                        self.entities@,
                        level,
                        false,
                        #[trigger] picks[j],
                    ),
                ecs@ == spec_spawn_all(before, self.entities@, places, picks, k as nat),
            decreases spawn_points@.len() - k,
        {
            let ghost old_picks = picks;
            let pick = self.draw(rng, level, false);
            proof {
                picks = picks.push(
                    match pick {
                        Some(t) => Some(t as int),
                        None => None,
                    },
                );
                lemma_spawn_all_prefix(before, self.entities@, places, old_picks, picks, k as nat);
                assert(places[k as int] == spawn_points@[k as int]);
            }
            match pick {
                Some(t) => {
                    assert(ecs@.entities.len() == ecs.entities@.len());
                    self.spawn_entity(&spawn_points[k], &self.entities[t], ecs);
                    assert(ecs@.entities.len() == ecs.entities@.len());
                },
                None => {},
            }
            k += 1;
        }
        let mut g: usize = 0;
        while g < guaranteed_monster_spawn_points.len()
            invariant
                g <= guaranteed_monster_spawn_points@.len(),
                self.wf(),
                before == old(ecs)@,
                places == spawn_points@ + guaranteed_monster_spawn_points@,
                old(ecs).entities@.len() + spawn_points@.len()
                    + guaranteed_monster_spawn_points@.len() < usize::MAX,
                ecs.entities@.len() <= old(ecs).entities@.len() + spawn_points@.len() + g,
                picks.len() == spawn_points@.len() + g,
                forall|j: int|
                    0 <= j < picks.len() ==> spec_pickable(
                        self.entities@,
                        level,
                        j >= spawn_points@.len(),
                        #[trigger] picks[j],
                    ),
                ecs@ == spec_spawn_all(before, self.entities@, places, picks, picks.len()),
            decreases guaranteed_monster_spawn_points@.len() - g,
        {
            let ghost old_picks = picks;
            let pick = self.draw(rng, level, true);
            proof {
                picks = picks.push(
                    match pick {
                        Some(t) => Some(t as int),
                        None => None,
                    },
                );
                lemma_spawn_all_prefix(
                    before,
                    self.entities@,
                    places,
                    old_picks,
                    picks,
                    old_picks.len(),
                );
                assert(places[spawn_points@.len() + g] == guaranteed_monster_spawn_points@[g as int]);
            }
            match pick {
                Some(t) => {
                    assert(ecs@.entities.len() == ecs.entities@.len());
                    self.spawn_entity(&guaranteed_monster_spawn_points[g], &self.entities[t], ecs);
                    assert(ecs@.entities.len() == ecs.entities@.len());
                },
                None => {},
            }
            g += 1;
        }
    }
}

/// The world after the first `n` places have been filled, place `k` with
/// the entry `picks[k]`.
pub open spec fn spec_spawn_all(
    w: WorldView,
    entries: Seq<Template>,
    places: Seq<Point>,
    picks: Seq<Option<int>>,
    n: nat,
) -> WorldView
    decreases n,
{
    if n == 0 {
        w
    } else {
        let before = spec_spawn_all(w, entries, places, picks, (n - 1) as nat);
        match picks[n - 1] {
            Some(t) => WorldView {
                entities: before.entities.push(spec_spawned(entries[t], places[n - 1])),
                ..before
            },
            None => before,
        }
    }
}

/// Filling the first places does not depend on the picks for later ones.
proof fn lemma_spawn_all_prefix(
    w: WorldView,
    entries: Seq<Template>,
    places: Seq<Point>,
    picks: Seq<Option<int>>,
    longer: Seq<Option<int>>,
    n: nat,
)
    requires
        n <= picks.len() <= longer.len(),
        forall|i: int| 0 <= i < n ==> picks[i] == longer[i],
    ensures
        spec_spawn_all(w, entries, places, picks, n) == spec_spawn_all(w, entries, places, longer, n),
    decreases n,
{
    if n > 0 {
        lemma_spawn_all_prefix(w, entries, places, picks, longer, (n - 1) as nat);
    }
}

} // verus!
