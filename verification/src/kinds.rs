//! Closed enums of the domain. Adding a variant here is a design change, not a tweak.
use vstd::prelude::*;

verus! {

/// The six fungible goods. Dwellings are assets, not goods.
#[derive(Clone, Copy, Debug, PartialEq, Eq, Structural)]
pub enum Good {
    Grain,
    Ore,
    Materials,
    Food,
    Wares,
    Machines,
}

/// Every good, in declaration order.
pub open spec fn spec_all_goods() -> Seq<Good> {
    seq![Good::Grain, Good::Ore, Good::Materials, Good::Food, Good::Wares, Good::Machines]
}

impl Good {
    /// The good's position in declaration order (0..6).
    pub open spec fn spec_index(self) -> int {
        match self {
            Good::Grain => 0,
            Good::Ore => 1,
            Good::Materials => 2,
            Good::Food => 3,
            Good::Wares => 4,
            Good::Machines => 5,
        }
    }

    /// Every good, in declaration order.
    pub fn all() -> (v: Vec<Good>)
        ensures
            v@ == spec_all_goods(),
    {
        let v = vec![Good::Grain, Good::Ore, Good::Materials, Good::Food, Good::Wares, Good::Machines];
        assert(v@ =~= spec_all_goods());
        v
    }
}

/// A value per good: a table keyed by good in which every good has an entry.
/// A map from goods in which a missing good reads as zero is the table with
/// zeros there.
#[derive(Clone, Copy, Debug, PartialEq, Eq)]
pub struct PerGood<T> {
    pub grain: T,
    pub ore: T,
    pub materials: T,
    pub food: T,
    pub wares: T,
    pub machines: T,
}

/// A quantity of each good.
pub type GoodCounts = PerGood<u32>;

impl<T: Copy> PerGood<T> {
    /// Every good at `v`.
    pub open spec fn spec_filled(v: T) -> PerGood<T> {
        PerGood { grain: v, ore: v, materials: v, food: v, wares: v, machines: v }
    }

    /// The entry of `g`.
    pub open spec fn spec_get(self, g: Good) -> T {
        match g {
            Good::Grain => self.grain,
            Good::Ore => self.ore,
            Good::Materials => self.materials,
            Good::Food => self.food,
            Good::Wares => self.wares,
            Good::Machines => self.machines,
        }
    }

    /// The same table with the entry of `g` set to `v`.
    pub open spec fn spec_set(self, g: Good, v: T) -> PerGood<T> {
        match g {
            Good::Grain => PerGood { grain: v, ..self },
            Good::Ore => PerGood { ore: v, ..self },
            Good::Materials => PerGood { materials: v, ..self },
            Good::Food => PerGood { food: v, ..self },
            Good::Wares => PerGood { wares: v, ..self },
            Good::Machines => PerGood { machines: v, ..self },
        }
    }

    /// Reading an entry after setting one.
    pub proof fn lemma_get_set(self, g: Good, v: T, h: Good)
        ensures
            self.spec_set(g, v).spec_get(h) == if h == g {
                v
            } else {
                self.spec_get(h)
            },
    {
    }

    /// Every good at `v`.
    pub fn filled(v: T) -> (t: PerGood<T>)
        ensures
            t == PerGood::<T>::spec_filled(v),
    {
        PerGood { grain: v, ore: v, materials: v, food: v, wares: v, machines: v }
    }

    /// The entry of `g`.
    pub fn get(&self, g: Good) -> (v: T)
        ensures
            v == self.spec_get(g),
    {
        match g {
            Good::Grain => self.grain,
            Good::Ore => self.ore,
            Good::Materials => self.materials,
            Good::Food => self.food,
            Good::Wares => self.wares,
            Good::Machines => self.machines,
        }
    }

    /// Set the entry of `g` to `v`.
    pub fn set(&mut self, g: Good, v: T)
        ensures
            *final(self) == old(self).spec_set(g, v),
    {
        match g {
            Good::Grain => self.grain = v,
            Good::Ore => self.ore = v,
            Good::Materials => self.materials = v,
            Good::Food => self.food = v,
            Good::Wares => self.wares = v,
            Good::Machines => self.machines = v,
        }
    }
}

/// Anything a workplace can produce: a good, or a dwelling asset.
#[derive(Clone, Copy, Debug, PartialEq, Eq, Structural)]
pub enum Product {
    Grain,
    Ore,
    Materials,
    Food,
    Wares,
    Machines,
    Dwelling,
}

impl Product {
    /// The good a product is, if it is a fungible good.
    pub open spec fn spec_as_good(self) -> Option<Good> {
        match self {
            Product::Grain => Some(Good::Grain),
            Product::Ore => Some(Good::Ore),
            Product::Materials => Some(Good::Materials),
            Product::Food => Some(Good::Food),
            Product::Wares => Some(Good::Wares),
            Product::Machines => Some(Good::Machines),
            Product::Dwelling => None,
        }
    }

    /// The good this product is, if it is a fungible good.
    pub fn as_good(self) -> (g: Option<Good>)
        ensures
            g == self.spec_as_good(),
    {
        match self {
            Product::Grain => Some(Good::Grain),
            Product::Ore => Some(Good::Ore),
            Product::Materials => Some(Good::Materials),
            Product::Food => Some(Good::Food),
            Product::Wares => Some(Good::Wares),
            Product::Machines => Some(Good::Machines),
            Product::Dwelling => None,
        }
    }

    /// The product a good is.
    pub fn from_good(g: Good) -> (p: Product)
        ensures
            p.spec_as_good() == Some(g),
    {
        match g {
            Good::Grain => Product::Grain,
            Good::Ore => Product::Ore,
            Good::Materials => Product::Materials,
            Good::Food => Product::Food,
            Good::Wares => Product::Wares,
            Good::Machines => Product::Machines,
        }
    }
}

/// The seven workplace kinds.
#[derive(Clone, Copy, Debug, PartialEq, Eq, Structural)]
pub enum WorkplaceKind {
    Farm,
    Mine,
    Foundry,
    Mill,
    Workshop,
    MachineShop,
    Builder,
}

/// Skill families, one per workplace kind.
#[derive(Clone, Copy, Debug, PartialEq, Eq, Structural)]
pub enum JobFamily {
    Farming,
    Mining,
    Smelting,
    Milling,
    Crafting,
    Machining,
    Building,
}

impl WorkplaceKind {
    /// The skill family a workplace kind trains.
    pub open spec fn spec_job_family(self) -> JobFamily {
        match self {
            WorkplaceKind::Farm => JobFamily::Farming,
            WorkplaceKind::Mine => JobFamily::Mining,
            WorkplaceKind::Foundry => JobFamily::Smelting,
            WorkplaceKind::Mill => JobFamily::Milling,
            WorkplaceKind::Workshop => JobFamily::Crafting,
            WorkplaceKind::MachineShop => JobFamily::Machining,
            WorkplaceKind::Builder => JobFamily::Building,
        }
    }

    /// The skill family this workplace trains.
    pub fn job_family(self) -> (f: JobFamily)
        ensures
            f == self.spec_job_family(),
    {
        match self {
            WorkplaceKind::Farm => JobFamily::Farming,
            WorkplaceKind::Mine => JobFamily::Mining,
            WorkplaceKind::Foundry => JobFamily::Smelting,
            WorkplaceKind::Mill => JobFamily::Milling,
            WorkplaceKind::Workshop => JobFamily::Crafting,
            WorkplaceKind::MachineShop => JobFamily::Machining,
            WorkplaceKind::Builder => JobFamily::Building,
        }
    }
}

/// The three needs.
#[derive(Clone, Copy, Debug, PartialEq, Eq, Structural)]
pub enum Need {
    Food,
    Shelter,
    Comfort,
}

/// Effort level chosen per labor allocation.
#[derive(Clone, Copy, Debug, PartialEq, Eq, Structural)]
pub enum Effort {
    Low,
    Normal,
    High,
}

impl Effort {
    /// The effort's rank: Low < Normal < High.
    pub open spec fn spec_rank(self) -> int {
        match self {
            Effort::Low => 0,
            Effort::Normal => 1,
            Effort::High => 2,
        }
    }
}

/// A value per effort level.
#[derive(Clone, Copy, Debug, PartialEq, Eq)]
pub struct EffortTable<T> {
    pub low: T,
    pub normal: T,
    pub high: T,
}

impl<T: Copy> EffortTable<T> {
    /// The entry for `effort`.
    pub open spec fn spec_get(&self, effort: Effort) -> T {
        match effort {
            Effort::Low => self.low,
            Effort::Normal => self.normal,
            Effort::High => self.high,
        }
    }

    /// The entry for `effort`.
    pub fn get(&self, effort: Effort) -> (t: T)
        ensures
            t == self.spec_get(effort),
    {
        match effort {
            Effort::Low => self.low,
            Effort::Normal => self.normal,
            Effort::High => self.high,
        }
    }
}

/// Organization kinds.
#[derive(Clone, Copy, Debug, PartialEq, Eq, Structural)]
pub enum OrgKind {
    Firm,
    Cooperative,
    Collective,
    StateEnterprise,
    Union,
    Association,
}

/// Contract kinds. Each preset enables a subset.
#[derive(Clone, Copy, Debug, PartialEq, Eq, Structural)]
pub enum ContractKind {
    Employment,
    SaleBook,
    SaleDirect,
    Credit,
    PublicCredit,
    Lease,
    Share,
    CollectiveAgreement,
    Pledge,
}

/// Communication channels a society provides.
#[derive(Clone, Copy, Debug, PartialEq, Eq, Structural)]
pub enum Channel {
    Square,
    Assembly,
    Org,
    Dm,
    NoticeBoard,
    Chronicle,
}

/// Who sent a command.
#[derive(Clone, Copy, Debug, PartialEq, Eq, Structural)]
pub enum ClientKind {
    Web,
    ApiKey,
    Householder,
    Sim,
    /// Internal commands issued by a citizen's standing plan during the tick.
    Plan,
}

/// Human player or scripted householder.
#[derive(Clone, Copy, Debug, PartialEq, Eq, Structural)]
pub enum CitizenKind {
    Human,
    Householder,
}

} // verus!
