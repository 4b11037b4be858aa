//! Crafting materials: the guild's stock and the conversion recipes.

use vstd::prelude::*;

use crate::buildings::{BuildingType, GuildBuildings};
use crate::text::{decimal, u64_to_string};

verus! {

/// Number of material types.
pub const MATERIAL_COUNT: usize = 15;

#[derive(Debug, Clone, Copy, PartialEq, Eq, Hash, Structural)]
pub enum MaterialType {
    // Raw
    IronOre,
    RawLeather,
    Wood,
    RawHerbs,
    RoughGems,
    // Refined (tier 2)
    SteelIngot,
    CuredLeather,
    Lumber,
    Potion,
    CutGem,
    // Refined (tier 3)
    EnchantedSteel,
    DragonLeather,
    ArcaneWood,
    ElixirOfPower,
    PrismaticGem,
}

/// Position of a material in display order.
pub open spec fn material_index(m: MaterialType) -> int {
    match m {
        MaterialType::IronOre => 0,
        MaterialType::RawLeather => 1,
        MaterialType::Wood => 2,
        MaterialType::RawHerbs => 3,
        MaterialType::RoughGems => 4,
        MaterialType::SteelIngot => 5,
        MaterialType::CuredLeather => 6,
        MaterialType::Lumber => 7,
        MaterialType::Potion => 8,
        MaterialType::CutGem => 9,
        MaterialType::EnchantedSteel => 10,
        MaterialType::DragonLeather => 11,
        MaterialType::ArcaneWood => 12,
        MaterialType::ElixirOfPower => 13,
        MaterialType::PrismaticGem => 14,
    }
}

/// The display name of a material.
pub open spec fn material_name(m: MaterialType) -> Seq<char> {
    match m {
        MaterialType::IronOre => "Iron Ore"@,
        MaterialType::RawLeather => "Raw Leather"@,
        MaterialType::Wood => "Wood"@,
        MaterialType::RawHerbs => "Raw Herbs"@,
        MaterialType::RoughGems => "Rough Gems"@,
        MaterialType::SteelIngot => "Steel Ingot"@,
        MaterialType::CuredLeather => "Cured Leather"@,
        MaterialType::Lumber => "Lumber"@,
        MaterialType::Potion => "Potion"@,
        MaterialType::CutGem => "Cut Gem"@,
        MaterialType::EnchantedSteel => "Enchanted Steel"@,
        MaterialType::DragonLeather => "Dragon Leather"@,
        MaterialType::ArcaneWood => "Arcane Wood"@,
        MaterialType::ElixirOfPower => "Elixir of Power"@,
        MaterialType::PrismaticGem => "Prismatic Gem"@,
    }
}

impl MaterialType {
    /// Position of the material in display order.
    pub fn index(&self) -> (i: usize)
        ensures
            i == material_index(*self),
            i < MATERIAL_COUNT,
    {
        match self {
            MaterialType::IronOre => 0,
            MaterialType::RawLeather => 1,
            MaterialType::Wood => 2,
            MaterialType::RawHerbs => 3,
            MaterialType::RoughGems => 4,
            MaterialType::SteelIngot => 5,
            MaterialType::CuredLeather => 6,
            MaterialType::Lumber => 7,
            MaterialType::Potion => 8,
            MaterialType::CutGem => 9,
            MaterialType::EnchantedSteel => 10,
            MaterialType::DragonLeather => 11,
            MaterialType::ArcaneWood => 12,
            MaterialType::ElixirOfPower => 13,
            MaterialType::PrismaticGem => 14,
        }
    }

    /// All material types in display order: raw, then refined, then high-tier.
    pub fn all() -> (v: Vec<MaterialType>)
        ensures
            v@.len() == MATERIAL_COUNT,
            forall|i: int| 0 <= i < v@.len() ==> material_index(#[trigger] v@[i]) == i,
    {
        vec![
            MaterialType::IronOre,
            MaterialType::RawLeather,
            MaterialType::Wood,
            MaterialType::RawHerbs,
            MaterialType::RoughGems,
            MaterialType::SteelIngot,
            MaterialType::CuredLeather,
            MaterialType::Lumber,
            MaterialType::Potion,
            MaterialType::CutGem,
            MaterialType::EnchantedSteel,
            MaterialType::DragonLeather,
            MaterialType::ArcaneWood,
            MaterialType::ElixirOfPower,
            MaterialType::PrismaticGem,
        ]
    }

    /// The display name of the material.
    pub fn name(&self) -> (s: &'static str)
        ensures
            s@ == material_name(*self),
    {
        match self {
            MaterialType::IronOre => "Iron Ore",
            MaterialType::RawLeather => "Raw Leather",
            MaterialType::Wood => "Wood",
            MaterialType::RawHerbs => "Raw Herbs",
            MaterialType::RoughGems => "Rough Gems",
            MaterialType::SteelIngot => "Steel Ingot",
            MaterialType::CuredLeather => "Cured Leather",
            MaterialType::Lumber => "Lumber",
            MaterialType::Potion => "Potion",
            MaterialType::CutGem => "Cut Gem",
            MaterialType::EnchantedSteel => "Enchanted Steel",
            MaterialType::DragonLeather => "Dragon Leather",
            MaterialType::ArcaneWood => "Arcane Wood",
            MaterialType::ElixirOfPower => "Elixir of Power",
            MaterialType::PrismaticGem => "Prismatic Gem",
        }
    }
}

/// A recipe turning `input_count` of one material into `output_count` of another.
#[derive(Debug, Clone)]
pub struct ConversionRecipe {
    pub input_type: MaterialType,
    pub input_count: u32,
    pub output_type: MaterialType,
    pub output_count: u32,
    pub workshop_level_required: u32,
}

/// The conversion recipes, loaded at startup.
pub struct ConversionDatabase(pub Vec<ConversionRecipe>);

/// The guild's stock of each material, indexed by `material_index`.
#[derive(Debug, Clone)]
pub struct Materials {
    counts: Vec<u32>,
}

/// Stock after spending `amount` of material `i`, when there is enough.
pub open spec fn spend_one(stock: Seq<u32>, i: int, amount: u32) -> Seq<u32> {
    if stock[i] >= amount {
        stock.update(i, (stock[i] - amount) as u32)
    } else {
        stock
    }
}

/// Stock after spending each cost in turn (a cost that cannot be paid is skipped).
pub open spec fn spend_each(stock: Seq<u32>, costs: Seq<(MaterialType, u32)>) -> Seq<u32>
    decreases costs.len(),
{
    if costs.len() == 0 {
        stock
    } else {
        spend_each(
            spend_one(stock, material_index(costs[0].0), costs[0].1),
            costs.drop_first(),
        )
    }
}

/// Every cost can be paid from the stock, each checked on its own.
pub open spec fn affords_each(stock: Seq<u32>, costs: Seq<(MaterialType, u32)>) -> bool {
    forall|k: int| 0 <= k < costs.len() ==> stock[material_index(#[trigger] costs[k].0)] >= costs[k].1
}

proof fn lemma_spend_each_len(stock: Seq<u32>, costs: Seq<(MaterialType, u32)>)
    requires
        stock.len() == MATERIAL_COUNT,
    ensures
        spend_each(stock, costs).len() == MATERIAL_COUNT,
    decreases costs.len(),
{
    if costs.len() > 0 {
        lemma_spend_each_len(
            spend_one(stock, material_index(costs[0].0), costs[0].1),
            costs.drop_first(),
        );
    }
}

impl Materials {
    /// The stock of each material, indexed by `material_index`.
    pub closed spec fn view(&self) -> Seq<u32> {
        self.counts@
    }

    /// The stock has one count per material.
    pub closed spec fn wf(&self) -> bool {
        self.counts@.len() == MATERIAL_COUNT
    }

    /// The stock of material `m`.
    pub open spec fn count(&self, m: MaterialType) -> u32 {
        self.view()[material_index(m)]
    }

    /// An empty stock.
    pub fn new() -> (r: Materials)
        ensures
            r.wf(),
            forall|i: int| 0 <= i < MATERIAL_COUNT ==> #[trigger] r.view()[i] == 0,
            r.view().len() == MATERIAL_COUNT,
    {
        let mut counts: Vec<u32> = Vec::new();
        let mut i: usize = 0;
        while i < MATERIAL_COUNT
            invariant
                i <= MATERIAL_COUNT,
                counts@.len() == i,
                forall|j: int| 0 <= j < i ==> counts@[j] == 0,
            decreases MATERIAL_COUNT - i,
        {
            counts.push(0);
            i += 1;
        }
        Materials { counts }
    }

    /// How much of a material the guild holds.
    pub fn get(&self, mat: MaterialType) -> (n: u32)
        requires
            self.wf(),
        ensures
            n == self.count(mat),
    {
        self.counts[mat.index()]
    }

    /// Add `amount` of a material.
    pub fn add(&mut self, mat: MaterialType, amount: u32)
        requires
            old(self).wf(),
            old(self).count(mat) + amount <= u32::MAX,
        ensures
            final(self).wf(),
            final(self).view() == old(self).view().update(
                material_index(mat),
                (old(self).count(mat) + amount) as u32,
            ),
    {
        let i = mat.index();
        let v = self.counts[i] + amount;
        self.counts.set(i, v);
    }

    /// Spend `amount` of a material if there is enough; report whether it was spent.
    pub fn try_spend(&mut self, mat: MaterialType, amount: u32) -> (ok: bool)
        requires
            old(self).wf(),
        ensures
            final(self).wf(),
            ok == (old(self).count(mat) >= amount),
            final(self).view() == spend_one(old(self).view(), material_index(mat), amount),
    {
        let i = mat.index();
        let have = self.counts[i];
        if have >= amount {
            self.counts.set(i, have - amount);
            true
        } else {
            false
        }
    }

    /// Spend every cost in turn, each skipped if it cannot be paid at that point.
    pub fn spend_each(&mut self, costs: &Vec<(MaterialType, u32)>)
        requires
            old(self).wf(),
        ensures
            final(self).wf(),
            final(self).view() == spend_each(old(self).view(), costs@),
    {
        let mut k: usize = 0;
        let ghost s0 = self.view();
        assert(costs@.subrange(0, costs@.len() as int) =~= costs@);
        while k < costs.len()
            invariant
                self.wf(),
                k <= costs@.len(),
                spend_each(self.view(), costs@.subrange(k as int, costs@.len() as int)) == spend_each(
                    s0,
                    costs@,
                ),
            decreases costs@.len() - k,
        {
            let (mat, amount) = costs[k];
            let ghost rest = costs@.subrange(k as int, costs@.len() as int);
            assert(rest.drop_first() =~= costs@.subrange(k + 1, costs@.len() as int));
            self.try_spend(mat, amount);
            k += 1;
        }
        assert(costs@.subrange(k as int, costs@.len() as int).len() == 0);
    }

    /// Whether every cost, checked on its own, can be paid.
    pub fn affords_each(&self, costs: &Vec<(MaterialType, u32)>) -> (b: bool)
        requires
            self.wf(),
        ensures
            b == affords_each(self.view(), costs@),
    {
        let mut k: usize = 0;
        while k < costs.len()
            invariant
                self.wf(),
                k <= costs@.len(),
                forall|j: int| 0 <= j < k ==> self.view()[material_index(#[trigger] costs@[j].0)] >= costs@[j].1,
            decreases costs@.len() - k,
        {
            let (mat, amount) = costs[k];
            if self.get(mat) < amount {
                return false;
            }
            k += 1;
        }
        true
    }

    /// Spend all costs if every one of them can be paid; otherwise spend nothing.
    pub fn try_spend_all(&mut self, costs: &Vec<(MaterialType, u32)>) -> (ok: bool)
        requires
            old(self).wf(),
        ensures
            final(self).wf(),
            ok == affords_each(old(self).view(), costs@),
            ok ==> final(self).view() == spend_each(old(self).view(), costs@),
            !ok ==> final(self).view() == old(self).view(),
    {
        if !self.affords_each(costs) {
            return false;
        }
        self.spend_each(costs);
        true
    }
}

/// How many times a recipe runs: the quantity asked, limited by the input stock.
pub open spec fn conversion_runs(available: u32, input_count: u32, quantity: u32) -> u32 {
    let max_runs = (available / input_count) as u32;
    if quantity < max_runs {
        quantity
    } else {
        max_runs
    }
}

/// The outcome of converting materials: how much went in and came out.
#[derive(Debug, Clone, Copy, PartialEq, Eq, Structural)]
pub struct Conversion {
    pub input_total: u32,
    pub output_total: u32,
}

/// A conversion whose output can be stored without overflow.
pub open spec fn conversion_fits(materials: Materials, recipe: ConversionRecipe, quantity: u32) -> bool {
    recipe.input_count > 0 && {
        let runs = conversion_runs(materials.count(recipe.input_type), recipe.input_count, quantity);
        runs * recipe.output_count + materials.count(recipe.output_type) <= u32::MAX
    }
}

/// Convert materials with recipe `recipe_index`, `quantity` times at most.
/// Nothing happens when the recipe does not exist, the workshop is below the
/// recipe's level, or not even one run can be paid.
pub fn convert_materials(
    materials: &mut Materials,
    db: &ConversionDatabase,
    buildings: &GuildBuildings,
    recipe_index: usize,
    quantity: u32,
) -> (r: Option<Conversion>)
    requires
        old(materials).wf(),
        buildings.wf(),
        recipe_index < db.0@.len() && buildings.level_of(BuildingType::Workshop)
            >= db.0@[recipe_index as int].workshop_level_required ==> conversion_fits(
            *old(materials),
            db.0@[recipe_index as int],
            quantity,
        ),
    ensures
        final(materials).wf(),
        recipe_index >= db.0@.len() ==> r is None && *final(materials) == *old(materials),
        recipe_index < db.0@.len() ==> ({
            let recipe = db.0@[recipe_index as int];
            let runs = conversion_runs(old(materials).count(recipe.input_type), recipe.input_count, quantity);
            if buildings.level_of(BuildingType::Workshop) < recipe.workshop_level_required || runs == 0 {
                r is None && *final(materials) == *old(materials)
            } else {
                let input_total = (runs * recipe.input_count) as u32;
                let output_total = (runs * recipe.output_count) as u32;
                let spent = spend_one(old(materials).view(), material_index(recipe.input_type), input_total);
                &&& r == Some(Conversion { input_total, output_total })
                &&& final(materials).view() == spent.update(
                    material_index(recipe.output_type),
                    (spent[material_index(recipe.output_type)] + output_total) as u32,
                )
            }
        }),
{
    if recipe_index >= db.0.len() {
        return None;
    }
    let recipe = &db.0[recipe_index];
    let workshop_level = buildings.level(BuildingType::Workshop);
    if workshop_level < recipe.workshop_level_required {
        return None;
    }
    let available = materials.get(recipe.input_type);
    let max_runs = available / recipe.input_count;
    let runs = if quantity < max_runs {
        quantity
    } else {
        max_runs
    };
    if runs == 0 {
        return None;
    }
    proof {
        assert(runs * recipe.input_count <= available) by (nonlinear_arith)
            requires
                runs <= available / recipe.input_count,
                recipe.input_count > 0,
        ;
        assert(runs * recipe.output_count >= 0) by (nonlinear_arith);
    }
    let input_total = runs * recipe.input_count;
    let output_total = runs * recipe.output_count;
    materials.try_spend(recipe.input_type, input_total);
    proof {
        if recipe.input_type != recipe.output_type {
            assert(material_index(recipe.input_type) != material_index(recipe.output_type));
        }
    }
    materials.add(recipe.output_type, output_total);
    Some(Conversion { input_total, output_total })
}

/// The toast body of a conversion: `"{in} {input} → {out} {output}"`.
pub open spec fn conversion_body(input_total: u32, input: MaterialType, output_total: u32, output: MaterialType) -> Seq<char> {
    decimal(input_total as nat) + seq![' '] + material_name(input) + " \u{2192} "@ + decimal(output_total as nat)
        + seq![' '] + material_name(output)
}

/// The toast body describing a conversion.
pub fn conversion_toast_body(
    input_total: u32,
    input: MaterialType,
    output_total: u32,
    output: MaterialType,
) -> (s: String)
    ensures
        s@ == conversion_body(input_total, input, output_total, output),
{
    let mut s = u64_to_string(input_total as u64);
    s.append(" ");
    s.append(input.name());
    s.append(" \u{2192} ");
    let o = u64_to_string(output_total as u64);
    s.append(o.as_str());
    s.append(" ");
    s.append(output.name());
    proof {
        reveal_strlit(" ");
        assert(s@ =~= conversion_body(input_total, input, output_total, output));
    }
    s
}

} // verus!
