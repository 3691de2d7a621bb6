use isms_core::seeding::start_epoch;
use isms_core::apply::{apply, goods_of, money_of};
use isms_core::config::{Preset, Scoreboard};
use isms_core::constitution::{
    CapitalMode, Compensation, Constitution, Governance, LaborMode, Monitoring, Ownership, Pricing, Proposers,
    Redistribution,
};
use isms_core::event::Event;
use isms_core::ids::{CitizenId, OrgId, WorkplaceId};
use isms_core::kinds::{CitizenKind, ContractKind, Good, OrgKind, PerGood, WorkplaceKind};
use isms_core::ledger::{conservation_check, Asset, Holder, Imbalance, Party};
use isms_core::money::Money;
use isms_core::params::{
    BankParams, ContractParams, CoopParams, FoundingParams, GovernanceParams, HouseholderParams, LaborParams,
    MarketParams, MoneyParams, NeedsParams, Params, PerKind, PopulationParams, RateLimit, SeedingParams, ShareRule,
    TimeParams, UnionParams,
};
use isms_core::policy::{MonitoringPolicy, Policy};
use isms_core::world::World;

fn per_kind<T: Copy>(v: T) -> PerKind<T> {
    PerKind { farm: v, mine: v, foundry: v, mill: v, workshop: v, machine_shop: v, builder: v }
}

fn per_good<T: Copy>(v: T) -> PerGood<T> {
    PerGood { grain: v, ore: v, materials: v, food: v, wares: v, machines: v }
}

fn params() -> Params {
    Params {
        time: TimeParams { ticks_per_cycle: 24, epoch_cycles: 14, tick_seconds: 3600, closing_window_minutes: 60 },
        labor: LaborParams {
            base_budget_hours: 8,
            balance_weights: per_kind(1),
            skill_band: 10,
            max_workplaces: 2,
            max_workers_per_workplace: 8,
            high_effort_debt_after_cycles: 2,
            high_effort_debt_hours: 2,
            hardship_debt_hours: 2,
            fatigue_debt_cap_hours: 3,
        },
        needs: NeedsParams { food_meter_per_unit: 10, comfort_per_wares: 10, destitution_hardship_cycles: 3, meter_start: 80 },
        pantry: per_good(Some(40)),
        land: PerKind {
            farm: Some(4),
            mine: Some(3),
            foundry: Some(2),
            mill: Some(2),
            workshop: Some(2),
            machine_shop: Some(1),
            builder: None,
        },
        founding: FoundingParams { materials: 10, initial_shares: 100 },
        money: MoneyParams {
            endowment: Money::credits(1000),
            founding_cost_money: Money::credits(100),
            legacy_wage: Money::credits(10),
            legacy_rent: Money::credits(20),
            legacy_treasury: Money::credits(500),
            start_prices: per_good(Some(Money::credits(5))),
        },
        market: MarketParams { order_expiry_cycles: 1, rate_limit: RateLimit { per_second: 5, burst: 20 } },
        population: PopulationParams { floor: 10, cap: 200, dormancy_absent_cycles: 3, office_vacancy_absent_cycles: 2 },
        householder: HouseholderParams {
            keep_food_at_least: 6,
            wares_comfort_below: 50,
            legacy_hire_inventory_cycles_cap: 3,
            living_cost_food: 24,
            living_cost_wares: 4,
        },
        contracts: ContractParams { lease_grace_cycles: 1, long_contract_cycles: 4 },
        governance: GovernanceParams { open_proposals_per_citizen: 2, unfilled_office_headline_cycles: 2 },
        seeded_workplaces: per_kind(1),
        initial_dwellings: 10,
        seeding: SeedingParams { legacy_inventory: per_kind(per_good(0)) },
        coop: CoopParams { default_share_rule: ShareRule::Equal, max_machines_per_member: 2 },
        bank: BankParams { rate_per_cycle_bp: 50, max_loan: Money::credits(5000), max_term_cycles: 10 },
        union: UnionParams { dues_per_cycle: Money::credits(5), strike_pay_per_cycle: Money::credits(10) },
    }
}

fn policy() -> Policy {
    Policy {
        monitoring: MonitoringPolicy::Inherit,
        work_norm_hours: None,
        rationing: None,
        ratchet: None,
        price_list: None,
        wage_grades: None,
        ration_caps: None,
        minimum_food_ration: None,
        need_floor_food: None,
        minimum_wage: None,
        public_dwellings: None,
        public_bank: None,
        lending_rule: None,
    }
}

fn preset(name: &str) -> Preset {
    let (ownership, pricing) = match name {
        "commune" => (Ownership::Collective, Pricing::NoPricing),
        "directorate" => (Ownership::Collective, Pricing::Administered),
        _ => (Ownership::Private, Pricing::Market),
    };
    Preset {
        name: name.to_string(),
        display: name.to_string(),
        gdd_section: "5".to_string(),
        constitution: Constitution {
            ownership,
            pricing,
            compensation: Compensation::Contract,
            labor: LaborMode::Free,
            capital: CapitalMode::Open,
            redistribution: Redistribution::NoRedistribution,
            monitoring: Monitoring::Medium,
            governance: Governance::Direct,
            contracts: vec![ContractKind::Employment, ContractKind::Credit],
            org_kinds: vec![OrgKind::Firm],
            communication: vec![],
            offices: vec![],
            proposal_kinds: vec![],
            proposers: Proposers::Anyone,
        },
        policy: policy(),
        params: params(),
        scoreboard: Scoreboard { primary: vec!["net_worth".to_string()] },
    }
}

fn fresh(name: &str) -> World {
    let p = preset(name);
    let mut w = World::new(0, 0, &p);
    apply(&mut w, &Event::SocietyCreated { society_id: 7, seed: 42, preset: Box::new(p) });
    apply(&mut w, &Event::EpochStarted { epoch: 0 });
    w
}

fn joined(w: &mut World, n: u32) {
    for i in 0..n {
        let endowment = if w.constitution.has_money() { w.params.money.endowment } else { Money::zero() };
        apply(
            w,
            &Event::CitizenJoined {
                citizen: CitizenId(i),
                handle: format!("c{i}"),
                kind: CitizenKind::Human,
                endowment,
                dwelling: None,
            },
        );
    }
}

fn seed_food(w: &mut World, citizen: u32, qty: u32) {
    apply(w, &Event::Seeded { holder: Holder::Citizen(CitizenId(citizen)), asset: Asset::Good(Good::Food, qty) });
}

#[test]
fn society_created_builds_the_world_from_the_preset() {
    let w = fresh("freeport");
    assert_eq!(w.meta.society_id, 7);
    assert_eq!(w.meta.seed, 42);
    assert_eq!(w.meta.preset, "freeport");
    assert_eq!(w.land.slots.len(), 14);
    assert!(w.store.is_none());
    conservation_check(&w).unwrap();
    let c = fresh("commune");
    assert!(c.store.is_some());
    assert!(c.state_stock.is_none());
    let d = fresh("directorate");
    assert!(d.state_stock.is_some());
}

#[test]
fn joins_mint_endowment_and_conserve() {
    let mut w = fresh("freeport");
    joined(&mut w, 5);
    assert_eq!(w.citizens.len(), 5);
    assert_eq!(w.ledger_meta.minted, Money::credits(5000));
    assert_eq!(money_of(&w, Party::Citizen(CitizenId(2))), Money::credits(1000));
    assert_eq!(w.next.citizen, CitizenId(5));
    conservation_check(&w).unwrap();
}

#[test]
fn transfers_move_money_and_goods_and_conserve() {
    let mut w = fresh("freeport");
    joined(&mut w, 2);
    seed_food(&mut w, 0, 10);
    conservation_check(&w).unwrap();
    apply(
        &mut w,
        &Event::Transferred {
            from: Party::Citizen(CitizenId(0)),
            to: Party::Citizen(CitizenId(1)),
            asset: Asset::Money(Money::credits(250)),
            memo: "loan".to_string(),
        },
    );
    apply(
        &mut w,
        &Event::Transferred {
            from: Party::Citizen(CitizenId(0)),
            to: Party::Citizen(CitizenId(1)),
            asset: Asset::Good(Good::Food, 4),
            memo: String::new(),
        },
    );
    assert_eq!(money_of(&w, Party::Citizen(CitizenId(0))), Money::credits(750));
    assert_eq!(money_of(&w, Party::Citizen(CitizenId(1))), Money::credits(1250));
    assert_eq!(goods_of(&w, Party::Citizen(CitizenId(0)), Good::Food), 6);
    assert_eq!(goods_of(&w, Party::Citizen(CitizenId(1)), Good::Food), 4);
    conservation_check(&w).unwrap();
}

#[test]
fn conservation_check_catches_a_leak() {
    let mut w = fresh("freeport");
    joined(&mut w, 1);
    w.citizens[0].household.balance = Money(w.citizens[0].household.balance.0 + 1);
    assert!(matches!(conservation_check(&w), Err(Imbalance::Money { .. })));

    let mut w = fresh("freeport");
    joined(&mut w, 1);
    w.citizens[0].household.pantry.ore = 1;
    assert!(matches!(conservation_check(&w), Err(Imbalance::Good { .. })));
}

#[test]
fn a_negative_balance_is_reported_before_the_totals() {
    let mut w = fresh("freeport");
    joined(&mut w, 2);
    w.citizens[1].household.balance = Money(-1);
    assert!(matches!(
        conservation_check(&w),
        Err(Imbalance::NegativeMoney { holder: Holder::Citizen(CitizenId(1)), amount: Money(-1) })
    ));
}

#[test]
fn founding_burns_the_fee_and_adding_a_workplace_consumes_materials() {
    let mut w = fresh("freeport");
    joined(&mut w, 1);
    apply(
        &mut w,
        &Event::OrgFounded {
            org: OrgId(0),
            kind: OrgKind::Cooperative,
            name: "Mill".to_string(),
            founder: Some(CitizenId(0)),
            ownership: isms_core::world::Ownership::Members,
            manager: Some(CitizenId(0)),
            fee_burned: Money::credits(100),
        },
    );
    assert_eq!(money_of(&w, Party::Citizen(CitizenId(0))), Money::credits(900));
    assert_eq!(w.ledger_meta.burned_money, Money::credits(100));
    assert_eq!(w.next.org, OrgId(1));
    apply(&mut w, &Event::Seeded { holder: Holder::Org(OrgId(0)), asset: Asset::Good(Good::Materials, 15) });
    apply(
        &mut w,
        &Event::WorkplaceAdded {
            workplace: WorkplaceId(0),
            org: OrgId(0),
            kind: WorkplaceKind::Mill,
            slot: None,
            materials_consumed: 10,
        },
    );
    assert_eq!(goods_of(&w, Party::Org(OrgId(0)), Good::Materials), 5);
    assert_eq!(w.orgs[0].workplaces, vec![WorkplaceId(0)]);
    assert_eq!(w.workplaces.len(), 1);
    conservation_check(&w).unwrap();
}

#[test]
fn production_consumes_inputs_and_adds_output_and_conserves() {
    let mut w = fresh("freeport");
    joined(&mut w, 1);
    apply(
        &mut w,
        &Event::OrgFounded {
            org: OrgId(0),
            kind: OrgKind::Firm,
            name: "Bakery".to_string(),
            founder: None,
            ownership: isms_core::world::Ownership::Society,
            manager: None,
            fee_burned: Money::zero(),
        },
    );
    apply(
        &mut w,
        &Event::WorkplaceAdded {
            workplace: WorkplaceId(3),
            org: OrgId(0),
            kind: WorkplaceKind::Mill,
            slot: None,
            materials_consumed: 0,
        },
    );
    apply(&mut w, &Event::Seeded { holder: Holder::Org(OrgId(0)), asset: Asset::Good(Good::Grain, 9) });
    let mut inputs = per_good(0u32);
    inputs.grain = 6;
    apply(
        &mut w,
        &Event::Produced { workplace: WorkplaceId(3), tick: 0, output: Good::Food, units: 4, inputs_consumed: inputs },
    );
    assert_eq!(goods_of(&w, Party::Org(OrgId(0)), Good::Grain), 3);
    assert_eq!(goods_of(&w, Party::Org(OrgId(0)), Good::Food), 4);
    assert_eq!(w.ledger_meta.consumed.grain, 6);
    assert_eq!(w.ledger_meta.produced.food, 4);
    conservation_check(&w).unwrap();
}

#[test]
fn machines_move_between_org_and_workplace_and_wear_out() {
    let mut w = fresh("freeport");
    apply(
        &mut w,
        &Event::OrgFounded {
            org: OrgId(0),
            kind: OrgKind::Firm,
            name: "Works".to_string(),
            founder: None,
            ownership: isms_core::world::Ownership::Society,
            manager: None,
            fee_burned: Money::zero(),
        },
    );
    apply(
        &mut w,
        &Event::WorkplaceAdded { workplace: WorkplaceId(0), org: OrgId(0), kind: WorkplaceKind::Foundry, slot: None, materials_consumed: 0 },
    );
    apply(&mut w, &Event::Seeded { holder: Holder::Org(OrgId(0)), asset: Asset::Good(Good::Machines, 5) });
    apply(&mut w, &Event::MachinesInstalled { workplace: WorkplaceId(0), qty: 3 });
    assert_eq!(w.workplaces[0].machines, 3);
    assert_eq!(goods_of(&w, Party::Org(OrgId(0)), Good::Machines), 2);
    apply(&mut w, &Event::MachinesUninstalled { workplace: WorkplaceId(0), qty: 1 });
    assert_eq!(w.workplaces[0].machines, 2);
    apply(&mut w, &Event::MachinesDepreciated { workplace: WorkplaceId(0), qty: 1 });
    assert_eq!(w.workplaces[0].machines, 1);
    assert_eq!(w.ledger_meta.depreciated.machines, 1);
    conservation_check(&w).unwrap();
}

#[test]
fn wages_and_dividends_move_money_from_org_to_citizen() {
    let mut w = fresh("freeport");
    joined(&mut w, 1);
    apply(
        &mut w,
        &Event::OrgFounded {
            org: OrgId(0),
            kind: OrgKind::Firm,
            name: "Firm".to_string(),
            founder: None,
            ownership: isms_core::world::Ownership::Society,
            manager: None,
            fee_burned: Money::zero(),
        },
    );
    apply(&mut w, &Event::Seeded { holder: Holder::Org(OrgId(0)), asset: Asset::Money(Money::credits(300)) });
    apply(&mut w, &Event::Paid { citizen: CitizenId(0), org: OrgId(0), contract: None, amount: Money::credits(50) });
    apply(&mut w, &Event::DividendPaid { org: OrgId(0), citizen: CitizenId(0), amount: Money::credits(20) });
    assert_eq!(money_of(&w, Party::Org(OrgId(0))), Money::credits(230));
    assert_eq!(money_of(&w, Party::Citizen(CitizenId(0))), Money::credits(1070));
    conservation_check(&w).unwrap();
}

#[test]
fn flags_and_dormancy_change_only_the_citizen() {
    let mut w = fresh("freeport");
    joined(&mut w, 1);
    apply(&mut w, &Event::HardshipBegan { citizen: CitizenId(0), cycle: 0 });
    assert!(w.citizens[0].flags.in_hardship);
    apply(&mut w, &Event::DestitutionBegan { citizen: CitizenId(0), cycle: 0 });
    assert!(w.citizens[0].flags.destitute && w.citizens[0].flags.options_narrowed);
    apply(&mut w, &Event::DestitutionEnded { citizen: CitizenId(0), cycle: 1 });
    assert!(!w.citizens[0].flags.destitute && !w.citizens[0].flags.options_narrowed);
    apply(&mut w, &Event::CitizenDormant { citizen: CitizenId(0) });
    assert!(w.citizens[0].dormant);
    apply(&mut w, &Event::CitizenReturned { citizen: CitizenId(0) });
    assert!(!w.citizens[0].dormant);
    apply(&mut w, &Event::CitizenSeen { citizen: CitizenId(0), tick: 9, client_kind: isms_core::kinds::ClientKind::Web });
    assert_eq!(w.citizens[0].last_seen_tick, 9);
    conservation_check(&w).unwrap();
}

#[test]
fn epochs_start_and_end() {
    let mut w = fresh("freeport");
    apply(&mut w, &Event::EpochEnded { reason: isms_core::world::EpochEndReason::Operator, cycle: 3 });
    assert!(w.meta.epoch_ended.is_some());
    apply(&mut w, &Event::EpochStarted { epoch: 1 });
    assert_eq!(w.meta.epoch, 1);
    assert_eq!(w.meta.tick, 0);
    assert!(w.meta.epoch_ended.is_none());
}

use isms_core::bank::{bank_org, loans_outstanding, machine_value, open_bank_loan, pending_application};
use isms_core::coop::{is_coop, least_crowded, open_places, share_out, tenure_cycles, would_admit};
use isms_core::credit::{cycle_end_8c_credit_installments, phase_7_defaults, pledged, schedule};
use isms_core::employment::{
    accept_employment, accrued_by_contract, accrued_for, accrued_pay, cycle_end_8a_payday, cycle_end_8a_payroll, employed, offer_employment, terminate_employment,
};
use isms_core::capabilities::Rules;
use isms_core::governance::{
    carries, default_ballot, electorate, holds, holds_any_office, open_by, ranked, recall_carries, Tally,
};
use isms_core::housing::{check_dwelling_sale, owner_of};
use isms_core::market::{bid_escrow, default_expiry, depth, escrow_of, last_price, open_bid_qty};
use isms_core::orgs::{check_room, controlling_owner, slot_for};
use isms_core::planner::{assembly, decide_presence, top_contributor};
use isms_core::seeding::seeded_org_kind;
use isms_core::shares::{book_value, citizen_held, cycle_end_8e_dividends, holder_of, net_worth, self_made, share_value, shares_held, shares_of};
use isms_core::state_store::{list_price, ration_remaining};
use isms_core::store::entitlement;
use isms_core::tax::floor_money;
use isms_core::housing::{cycle_end_8d_rent, phase_7_evictions};
use isms_core::tick::TickBuilder;
use isms_core::world::{
    Assignment, Ballot, Collateral, Contract, ContractBody, ContractStatus, Dwelling, Holding, Instrument, MemberSince,
    Offer, OfferBody, Order, OrderBook, OrderSource, Owner, SaleAsset, Seats, ShareHolder, ShareHolding, Side, Vote,
    VoteDefault, Worker,
};
use isms_core::command::{acting_citizen, end_epoch, gate, seen, Command, Envelope, RejectCode};
use isms_core::coop::{leave_events, set_share_rule};
use isms_core::credit::owns_collateral;
use isms_core::needs::cycle_end_8h_hardship_and_fatigue;
use isms_core::labor::set_labor;
use isms_core::world::Needs;
use isms_core::plan::{away_digest, bid_price, plan_envelope, touches};
use isms_core::employment::employment;
use isms_core::housing::lease as lease_of;
use isms_core::kinds::ClientKind;
use isms_core::event::Actor;
use isms_core::store::{need_first, serve_in_turn, serve_need_first, sort_largest_first, Served};
use isms_core::world::StoreRequest;
use isms_core::api::{instrument_name, parse_instrument};
use rand::rngs::StdRng;
use rand::SeedableRng;
use isms_core::credit::{admit_member, leave_org, request_membership};
use isms_core::housing::{accept_lease, move_in, move_out};
use isms_core::world::LeaseAsset;
use isms_core::norms::{join_workplace, leave_workplace};
use isms_core::orgs::{add_workplace, appoint_manager, found_org, install_machines, uninstall_machines};
use isms_core::shares::{declare_dividend, issue_shares};
use isms_core::constitution::{OfficeKind, RecallRule};
use isms_core::ids::{ContractId, DwellingId, OfferId, OrderId, SlotId};
use isms_core::kinds::Effort;

fn firm(w: &mut World, id: u32, ownership: isms_core::world::Ownership) {
    apply(
        w,
        &Event::OrgFounded {
            org: OrgId(id),
            kind: OrgKind::Firm,
            name: format!("org{id}"),
            founder: None,
            ownership,
            manager: None,
            fee_burned: Money::zero(),
        },
    );
}

#[test]
fn coop_members_share_the_surplus_exactly() {
    let mut w = fresh("freeport");
    joined(&mut w, 3);
    apply(
        &mut w,
        &Event::OrgFounded {
            org: OrgId(0),
            kind: OrgKind::Cooperative,
            name: "Coop".to_string(),
            founder: Some(CitizenId(0)),
            ownership: isms_core::world::Ownership::Members,
            manager: Some(CitizenId(0)),
            fee_burned: Money::zero(),
        },
    );
    w.orgs[0].members = vec![CitizenId(0), CitizenId(1), CitizenId(2)];
    let shares = share_out(&w, &w.orgs[0], Money(100));
    assert_eq!(shares, vec![(CitizenId(0), Money(34)), (CitizenId(1), Money(33)), (CitizenId(2), Money(33))]);
    assert!(is_coop(&w, OrgId(0)));
    assert!(!is_coop(&w, OrgId(9)));
    assert!(share_out(&w, &w.orgs[0], Money(0)).is_empty());
}

#[test]
fn hours_weighted_share_out_follows_hours_and_can_leave_cents_unpaid() {
    let mut w = fresh("freeport");
    joined(&mut w, 2);
    apply(
        &mut w,
        &Event::OrgFounded {
            org: OrgId(0),
            kind: OrgKind::Cooperative,
            name: "Coop".to_string(),
            founder: Some(CitizenId(0)),
            ownership: isms_core::world::Ownership::Members,
            manager: None,
            fee_burned: Money::zero(),
        },
    );
    apply(&mut w, &Event::WorkplaceAdded { workplace: WorkplaceId(0), org: OrgId(0), kind: WorkplaceKind::Farm, slot: None, materials_consumed: 0 });
    w.orgs[0].members = vec![CitizenId(0), CitizenId(1)];
    w.orgs[0].share_rule = Some(ShareRule::HoursWeighted);
    let a = |h: u32| Assignment { contract: None, hours: 8, effort: Effort::Normal, cycle_tick_hours: h };
    w.workplaces[0].workers = vec![
        Worker { citizen: CitizenId(0), assignment: a(30) },
        Worker { citizen: CitizenId(1), assignment: a(10) },
    ];
    assert_eq!(share_out(&w, &w.orgs[0], Money(101)), vec![(CitizenId(0), Money(76)), (CitizenId(1), Money(25))]);
    w.workplaces[0].workers[0].assignment.cycle_tick_hours = 1;
    w.workplaces[0].workers[1].assignment.cycle_tick_hours = 1;
    assert!(share_out(&w, &w.orgs[0], Money(1)).is_empty());
}

#[test]
fn coop_admission_and_places() {
    let mut w = fresh("freeport");
    joined(&mut w, 1);
    apply(
        &mut w,
        &Event::OrgFounded {
            org: OrgId(0),
            kind: OrgKind::Cooperative,
            name: "Coop".to_string(),
            founder: Some(CitizenId(0)),
            ownership: isms_core::world::Ownership::Members,
            manager: None,
            fee_burned: Money::zero(),
        },
    );
    assert!(!would_admit(&w, &w.orgs[0]));
    apply(&mut w, &Event::WorkplaceAdded { workplace: WorkplaceId(4), org: OrgId(0), kind: WorkplaceKind::Farm, slot: None, materials_consumed: 0 });
    apply(&mut w, &Event::WorkplaceAdded { workplace: WorkplaceId(2), org: OrgId(0), kind: WorkplaceKind::Mill, slot: None, materials_consumed: 0 });
    let a = Assignment { contract: None, hours: 8, effort: Effort::Normal, cycle_tick_hours: 0 };
    w.workplaces[1].workers = vec![Worker { citizen: CitizenId(0), assignment: a }];
    assert_eq!(least_crowded(&w, &w.orgs[0]), Some(WorkplaceId(2)));
    assert!(would_admit(&w, &w.orgs[0]));
    assert_eq!(open_places(&w, &w.orgs[0]), 15);
    w.offers.push(Offer { id: OfferId(0), by: Party::Citizen(CitizenId(0)), created_tick: 0, body: OfferBody::Membership { org: OrgId(0), citizen: CitizenId(0) } });
    assert_eq!(open_places(&w, &w.orgs[0]), 14);
    w.orgs[0].member_since = vec![MemberSince { citizen: CitizenId(0), tick: 5 }];
    w.meta.tick = 77;
    assert_eq!(tenure_cycles(&w, &w.orgs[0], CitizenId(0)), 3);
    assert_eq!(tenure_cycles(&w, &w.orgs[0], CitizenId(1)), 0);
    assert!(check_room(&w, WorkplaceId(2)).is_ok());
    assert_eq!(check_room(&w, WorkplaceId(9)).unwrap_err().code, RejectCode::UnknownWorkplace);
}

#[test]
fn slots_are_taken_free_and_by_kind() {
    let w = fresh("freeport");
    assert_eq!(slot_for(&w, WorkplaceKind::Builder, None).unwrap(), None);
    assert_eq!(slot_for(&w, WorkplaceKind::Mine, None).unwrap(), Some(SlotId(4)));
    assert_eq!(slot_for(&w, WorkplaceKind::Farm, Some(SlotId(2))).unwrap(), Some(SlotId(2)));
    assert_eq!(slot_for(&w, WorkplaceKind::Farm, Some(SlotId(5))).unwrap_err().code, RejectCode::NoSlotAvailable);
    assert_eq!(slot_for(&w, WorkplaceKind::Farm, Some(SlotId(99))).unwrap_err().code, RejectCode::NoSlotAvailable);
}

#[test]
fn shares_and_control() {
    let mut w = fresh("freeport");
    firm(
        &mut w,
        0,
        isms_core::world::Ownership::Shares {
            issued: 100,
            holdings: vec![
                ShareHolding { holder: ShareHolder::OrgSelf, qty: 30 },
                ShareHolding { holder: ShareHolder::Citizen(CitizenId(3)), qty: 51 },
                ShareHolding { holder: ShareHolder::Citizen(CitizenId(4)), qty: 19 },
            ],
        },
    );
    assert_eq!(holder_of(Party::Org(OrgId(0)), OrgId(0)), Some(ShareHolder::OrgSelf));
    assert_eq!(holder_of(Party::Org(OrgId(1)), OrgId(0)), None);
    assert_eq!(shares_held(&w, Party::Citizen(CitizenId(3)), OrgId(0)), 51);
    assert_eq!(shares_held(&w, Party::Citizen(CitizenId(5)), OrgId(0)), 0);
    assert_eq!(shares_of(&w.orgs[0].ownership, ShareHolder::OrgSelf), 30);
    assert_eq!(citizen_held(&w.orgs[0]), 70);
    assert_eq!(controlling_owner(&w.orgs[0]), Some(CitizenId(3)));
    conservation_check(&w).unwrap();
}

#[test]
fn credit_schedule_puts_the_remainder_last() {
    let (total, installment, last) = schedule(Money(10_000), 100, 3);
    assert_eq!(total, Money(10_300));
    assert_eq!(installment, Money(3_433));
    assert_eq!(last, Money(3_434));
    let (t0, i0, l0) = schedule(Money(500), 0, 0);
    assert_eq!((t0, i0, l0), (Money(500), Money(500), Money(500)));
}

#[test]
fn pledges_employment_and_bank_loans_read_the_contracts() {
    let mut w = fresh("freeport");
    firm(&mut w, 0, isms_core::world::Ownership::Society);
    w.orgs[0].kind = OrgKind::Association;
    firm(&mut w, 1, isms_core::world::Ownership::Members);
    assert_eq!(bank_org(&w), Some(OrgId(0)));
    let credit = |installment: i64, left: u32, collateral: Option<Collateral>| ContractBody::Credit {
        principal: Money(1000),
        rate_per_cycle_bp: 10,
        installment: Money(installment),
        installments_left: left,
        collateral,
        missed: false,
    };
    w.contracts = vec![
        Contract {
            id: ContractId(0),
            parties: (Party::Org(OrgId(0)), Party::Org(OrgId(1))),
            created_tick: 0,
            term_cycles: Some(4),
            status: ContractStatus::Active,
            body: credit(250, 3, Some(Collateral::Dwelling(DwellingId(7)))),
        },
        Contract {
            id: ContractId(1),
            parties: (Party::Org(OrgId(1)), Party::Citizen(CitizenId(2))),
            created_tick: 0,
            term_cycles: None,
            status: ContractStatus::Active,
            body: ContractBody::Employment {
                org: OrgId(1),
                workplace: WorkplaceId(0),
                pay: isms_core::world::Pay::Hourly(Money(100)),
                max_hours: 8,
                notice_cycles: 1,
            },
        },
    ];
    assert!(pledged(&w, Collateral::Dwelling(DwellingId(7))));
    assert!(!pledged(&w, Collateral::Dwelling(DwellingId(8))));
    assert!(employed(&w, CitizenId(2)));
    assert!(!employed(&w, CitizenId(3)));
    assert!(open_bank_loan(&w, OrgId(0), OrgId(1)));
    assert!(!open_bank_loan(&w, OrgId(1), OrgId(0)));
    assert_eq!(loans_outstanding(&w), Money(750));
    assert!(!pending_application(&w, OrgId(1)));
    w.offers.push(Offer { id: OfferId(3), by: Party::Org(OrgId(1)), created_tick: 0, body: OfferBody::BankLoan { org: OrgId(1), principal: Money(5), term_cycles: 2 } });
    assert!(pending_application(&w, OrgId(1)));
    w.contracts[0].status = ContractStatus::Ended;
    assert!(!pledged(&w, Collateral::Dwelling(DwellingId(7))));
}

#[test]
fn books_price_and_escrow() {
    let mut w = fresh("freeport");
    assert_eq!(bid_escrow(3, Money(250)), Money(750));
    assert_eq!(last_price(&w, Instrument::Good(Good::Food)), Some(Money::credits(5)));
    assert_eq!(last_price(&w, Instrument::Share(OrgId(0))), None);
    let order = |id: u32, owner: u32, side: Side, remaining: u32| Order {
        id: OrderId(id),
        owner: Party::Citizen(CitizenId(owner)),
        instrument: Instrument::Good(Good::Food),
        side,
        qty: 10,
        remaining,
        limit_price: Money(90),
        placed_tick: 0,
        expires_tick: 47,
        source: OrderSource::Manual,
    };
    w.books.push(OrderBook {
        instrument: Instrument::Good(Good::Food),
        orders: vec![order(0, 1, Side::Bid, 4), order(1, 1, Side::Bid, 2), order(2, 1, Side::Ask, 7), order(3, 2, Side::Bid, 5)],
        last_price: Some(Money(88)),
        last_trade_tick: Some(3),
        tick_volume: 0,
        tick_value: Money(0),
    });
    assert_eq!(last_price(&w, Instrument::Good(Good::Food)), Some(Money(88)));
    assert_eq!(open_bid_qty(&w, Party::Citizen(CitizenId(1)), Good::Food), 6);
    assert_eq!(open_bid_qty(&w, Party::Citizen(CitizenId(1)), Good::Wares), 0);
    assert_eq!(escrow_of(&w.books[0].orders[0]), Asset::Money(Money(360)));
    assert_eq!(escrow_of(&w.books[0].orders[2]), Asset::Good(Good::Food, 7));
    w.meta.tick = 30;
    assert_eq!(default_expiry(&w), 71);
    assert_eq!(floor_money(&w, 3), Money(264));
}

#[test]
fn governance_reads_offices_and_ballots() {
    let mut w = fresh("freeport");
    joined(&mut w, 3);
    w.citizens[1].dormant = true;
    assert_eq!(electorate(&w), vec![CitizenId(0), CitizenId(2)]);
    assert_eq!(assembly(&w), vec![CitizenId(0), CitizenId(1), CitizenId(2)]);
    assert_eq!(decide_presence(&w, 24), vec![CitizenId(0), CitizenId(1), CitizenId(2)]);
    assert_eq!(decide_presence(&w, 25), vec![CitizenId(1)]);
    w.offices.holders.push(Seats { kind: OfficeKind::Coordinator, holders: vec![Holding { citizen: CitizenId(2), term_ends_cycle: 4 }] });
    assert!(holds(&w, CitizenId(2), OfficeKind::Coordinator));
    assert!(!holds(&w, CitizenId(2), OfficeKind::Legislator));
    assert!(holds_any_office(&w, CitizenId(2)));
    assert!(!holds_any_office(&w, CitizenId(0)));
    assert_eq!(open_by(&w, CitizenId(0)), 0);
    let t = Tally { yes: 4, no: 2, abstain: 1, cast: 7, quorum: 3, eligible: 10 };
    assert!(carries(&t));
    assert!(recall_carries(&t, RecallRule::TwoThirds));
    let t2 = Tally { yes: 3, no: 2, abstain: 0, cast: 5, quorum: 3, eligible: 10 };
    assert!(carries(&t2));
    assert!(!recall_carries(&t2, RecallRule::TwoThirds));
    assert!(recall_carries(&t2, RecallRule::Majority));
    let own = vec![Vote { citizen: CitizenId(2), ballot: Ballot::No }];
    assert_eq!(default_ballot(&w.citizens[0], &own), Some(Ballot::Abstain));
    w.citizens[0].plan.vote_default = VoteDefault::Follow(CitizenId(2));
    assert_eq!(default_ballot(&w.citizens[0], &own), Some(Ballot::No));
    w.citizens[0].plan.vote_default = VoteDefault::NoDefault;
    assert_eq!(default_ballot(&w.citizens[0], &own), None);
}

#[test]
fn dwellings_sell_only_by_their_owner_and_once() {
    let mut w = fresh("freeport");
    w.dwellings.push(Dwelling { id: DwellingId(0), owner: Owner::Citizen(CitizenId(1)), occupant: None, lease: None, built_tick: 0 });
    assert_eq!(owner_of(Party::Org(OrgId(2))), Owner::Org(OrgId(2)));
    assert!(check_dwelling_sale(&w, Party::Citizen(CitizenId(1)), DwellingId(0)).is_ok());
    assert_eq!(check_dwelling_sale(&w, Party::Citizen(CitizenId(2)), DwellingId(0)).unwrap_err().code, RejectCode::NotOwner);
    assert_eq!(check_dwelling_sale(&w, Party::Citizen(CitizenId(1)), DwellingId(5)).unwrap_err().code, RejectCode::UnknownDwelling);
    w.offers.push(Offer {
        id: OfferId(0),
        by: Party::Citizen(CitizenId(1)),
        created_tick: 0,
        body: OfferBody::Sale { asset: SaleAsset::Dwelling(DwellingId(0)), price: isms_core::world::Price::Money(Money(5)), to: None },
    });
    assert_eq!(check_dwelling_sale(&w, Party::Citizen(CitizenId(1)), DwellingId(0)).unwrap_err().code, RejectCode::AlreadyExists);
}

#[test]
fn the_store_entitles_what_fills_the_meter() {
    let mut w = fresh("commune");
    joined(&mut w, 1);
    w.citizens[0].needs.food = 745;
    w.citizens[0].household.pantry.food = 1;
    assert_eq!(entitlement(&w, &w.citizens[0], Good::Food), 2);
    assert_eq!(entitlement(&w, &w.citizens[0], Good::Ore), 0);
    w.citizens[0].household.pantry.food = 38;
    assert_eq!(entitlement(&w, &w.citizens[0], Good::Food), 0);
}

#[test]
fn rations_and_prices_and_seeding() {
    let mut w = fresh("directorate");
    assert_eq!(list_price(&w, Good::Food), None);
    let mut prices = per_good(None);
    prices.food = Some(Money(120));
    w.policy.price_list = Some(prices);
    assert_eq!(list_price(&w, Good::Food), Some(Money(120)));
    assert_eq!(ration_remaining(&w, CitizenId(0), Good::Food), u32::MAX);
    let mut caps = per_good(None);
    caps.food = Some(10);
    w.policy.ration_caps = Some(caps);
    assert_eq!(ration_remaining(&w, CitizenId(0), Good::Food), 10);
    assert_eq!(seeded_org_kind(&w), OrgKind::StateEnterprise);
    assert_eq!(seeded_org_kind(&fresh("freeport")), OrgKind::Firm);
    assert_eq!(seeded_org_kind(&fresh("commune")), OrgKind::Collective);
}

#[test]
fn the_top_contributor_has_the_most_hours() {
    let mut w = fresh("freeport");
    joined(&mut w, 3);
    assert_eq!(top_contributor(&w), None);
    w.citizens[1].contribution.tick_hours_total = 40;
    w.citizens[2].contribution.tick_hours_total = 40;
    assert_eq!(top_contributor(&w), Some(CitizenId(1)));
    w.citizens[2].contribution.tick_hours_total = 41;
    assert_eq!(top_contributor(&w), Some(CitizenId(2)));
}

#[test]
fn machine_value_prices_installed_machines() {
    let mut w = fresh("freeport");
    firm(&mut w, 0, isms_core::world::Ownership::Society);
    apply(&mut w, &Event::WorkplaceAdded { workplace: WorkplaceId(0), org: OrgId(0), kind: WorkplaceKind::Foundry, slot: None, materials_consumed: 0 });
    apply(&mut w, &Event::Seeded { holder: Holder::Org(OrgId(0)), asset: Asset::Good(Good::Machines, 4) });
    apply(&mut w, &Event::MachinesInstalled { workplace: WorkplaceId(0), qty: 3 });
    assert_eq!(machine_value(&w, OrgId(0)), Money::credits(15));
    assert_eq!(machine_value(&w, OrgId(8)), Money(0));
}

#[test]
fn rent_and_installments_are_paid_under_their_contracts() {
    let mut w = fresh("freeport");
    joined(&mut w, 2);
    firm(&mut w, 0, isms_core::world::Ownership::Society);
    w.contracts = vec![
        Contract {
            id: ContractId(0),
            parties: (Party::Org(OrgId(0)), Party::Citizen(CitizenId(1))),
            created_tick: 0,
            term_cycles: None,
            status: ContractStatus::Active,
            body: ContractBody::Lease {
                asset: isms_core::world::LeaseAsset::Dwelling(DwellingId(0)),
                rent_per_cycle: Money(2000),
                missed_cycles: 2,
            },
        },
        Contract {
            id: ContractId(1),
            parties: (Party::Citizen(CitizenId(0)), Party::Citizen(CitizenId(1))),
            created_tick: 0,
            term_cycles: Some(4),
            status: ContractStatus::Active,
            body: ContractBody::Credit {
                principal: Money(1000),
                rate_per_cycle_bp: 10,
                installment: Money(250),
                installments_left: 3,
                collateral: None,
                missed: true,
            },
        },
    ];
    apply(&mut w, &Event::RentPaid { contract: ContractId(0), amount: Money(2000) });
    assert_eq!(w.citizens[1].household.balance, Money(98_000));
    assert_eq!(w.orgs[0].treasury, Money(2000));
    assert!(matches!(w.contracts[0].body, ContractBody::Lease { missed_cycles: 0, .. }));
    apply(&mut w, &Event::CreditInstallment { contract: ContractId(1), amount: Money(250), remaining: 2 });
    assert_eq!(w.citizens[0].household.balance, Money(100_250));
    assert_eq!(w.citizens[1].household.balance, Money(97_750));
    assert!(matches!(
        w.contracts[1].body,
        ContractBody::Credit { installments_left: 2, missed: false, .. }
    ));
    apply(&mut w, &Event::RentPaid { contract: ContractId(9), amount: Money(2000) });
    assert_eq!(w.citizens[0].household.balance, Money(100_250));
    assert_eq!(w.citizens[1].household.balance, Money(97_750));
    assert_eq!(w.orgs[0].treasury, Money(2000));
    assert!(conservation_check(&w).is_ok());
}

#[test]
fn building_a_dwelling_consumes_the_orgs_materials() {
    let mut w = fresh("freeport");
    firm(&mut w, 0, isms_core::world::Ownership::Society);
    apply(&mut w, &Event::Seeded { holder: Holder::Org(OrgId(0)), asset: Asset::Good(Good::Materials, 30) });
    apply(
        &mut w,
        &Event::DwellingBuilt { dwelling: DwellingId(5), org: OrgId(0), workplace: None, materials_consumed: 10 },
    );
    assert_eq!(w.orgs[0].inventory.get(Good::Materials), 20);
    assert_eq!(w.dwellings.len(), 1);
    assert_eq!(w.dwellings[0].id, DwellingId(5));
    assert_eq!(w.dwellings[0].owner, isms_core::world::Owner::Org(OrgId(0)));
    assert_eq!(w.dwellings[0].occupant, None);
    assert_eq!(w.next.dwelling, DwellingId(6));
    assert_eq!(w.ledger_meta.dwellings_built, 1);
    assert_eq!(w.ledger_meta.consumed.get(Good::Materials), 10);
    assert!(conservation_check(&w).is_ok());
}

#[test]
fn issued_shares_go_to_the_orgs_own_line() {
    let mut w = fresh("freeport");
    joined(&mut w, 1);
    firm(
        &mut w,
        0,
        isms_core::world::Ownership::Shares {
            issued: 100,
            holdings: vec![ShareHolding { holder: ShareHolder::Citizen(CitizenId(0)), qty: 100 }],
        },
    );
    apply(&mut w, &Event::SharesIssued { org: OrgId(0), qty: 50 });
    apply(&mut w, &Event::SharesIssued { org: OrgId(0), qty: 10 });
    match &w.orgs[0].ownership {
        isms_core::world::Ownership::Shares { issued, holdings } => {
            assert_eq!(*issued, 160);
            assert_eq!(
                holdings,
                &vec![
                    ShareHolding { holder: ShareHolder::Citizen(CitizenId(0)), qty: 100 },
                    ShareHolding { holder: ShareHolder::OrgSelf, qty: 60 },
                ]
            );
        },
        _ => panic!("a firm keeps its registry"),
    }
    assert!(conservation_check(&w).is_ok());
}

#[test]
fn wanted_notices_and_membership_requests_go_on_the_board() {
    let mut w = fresh("freeport");
    joined(&mut w, 1);
    apply(
        &mut w,
        &Event::WantedPosted {
            offer: OfferId(4),
            by: Party::Citizen(CitizenId(0)),
            good: Good::Food,
            qty: 3,
            max_price: Money(500),
        },
    );
    apply(&mut w, &Event::MembershipRequested { offer: OfferId(2), org: OrgId(1), citizen: CitizenId(0) });
    assert_eq!(w.offers.len(), 2);
    assert_eq!(w.offers[0].id, OfferId(2));
    assert_eq!(w.offers[0].body, OfferBody::Membership { org: OrgId(1), citizen: CitizenId(0) });
    assert_eq!(w.offers[1].id, OfferId(4));
    assert_eq!(w.offers[1].body, OfferBody::Wanted { good: Good::Food, qty: 3, max_price: Money(500) });
    assert_eq!(w.next.offer, OfferId(5));
}

#[test]
fn book_value_share_value_and_net_worth_use_last_prices() {
    let mut w = fresh("freeport");
    joined(&mut w, 2);
    firm(
        &mut w,
        0,
        isms_core::world::Ownership::Shares {
            issued: 100,
            holdings: vec![
                ShareHolding { holder: ShareHolder::Citizen(CitizenId(0)), qty: 50 },
                ShareHolding { holder: ShareHolder::OrgSelf, qty: 50 },
            ],
        },
    );
    apply(
        &mut w,
        &Event::WorkplaceAdded {
            workplace: WorkplaceId(0),
            org: OrgId(0),
            kind: WorkplaceKind::Builder,
            slot: None,
            materials_consumed: 0,
        },
    );
    w.workplaces[0].machines = 2;
    w.orgs[0].treasury = Money(1000);
    w.orgs[0].inventory.food = 10;
    w.citizens[0].household.pantry.food = 2;
    // 1000 + 10 food at 500 + 2 machines at 500.
    assert_eq!(book_value(&w, &w.orgs[0]), Money(7000));
    assert_eq!(share_value(&w, &w.orgs[0]), Money(70));
    assert_eq!(net_worth(&w, CitizenId(0)), Money(100_000 + 1000 + 50 * 70));
    assert_eq!(self_made(&w, CitizenId(0)), Money(4500));
    assert_eq!(net_worth(&w, CitizenId(1)), Money(100_000));
    assert_eq!(net_worth(&w, CitizenId(9)), Money(0));
    // A negative book value is split toward zero.
    firm(
        &mut w,
        1,
        isms_core::world::Ownership::Shares {
            issued: 100,
            holdings: vec![ShareHolding { holder: ShareHolder::OrgSelf, qty: 100 }],
        },
    );
    w.orgs[1].treasury = Money(-150);
    assert_eq!(share_value(&w, &w.orgs[1]), Money(-1));
    // An org that issues no shares has no share value.
    firm(&mut w, 2, isms_core::world::Ownership::Members);
    assert_eq!(share_value(&w, &w.orgs[2]), Money(0));
}

fn lease(id: u32, owner: Party, tenant: Party, dwelling: u32, rent: i64, missed: u32, term: Option<u32>) -> Contract {
    Contract {
        id: ContractId(id),
        parties: (owner, tenant),
        created_tick: 0,
        term_cycles: term,
        status: ContractStatus::Active,
        body: ContractBody::Lease {
            asset: isms_core::world::LeaseAsset::Dwelling(DwellingId(dwelling)),
            rent_per_cycle: Money(rent),
            missed_cycles: missed,
        },
    }
}

#[test]
fn rent_is_paid_where_the_tenant_has_it_and_terms_run_out() {
    let mut w = fresh("freeport");
    joined(&mut w, 2);
    firm(&mut w, 0, isms_core::world::Ownership::Society);
    let tenant = Party::Citizen(CitizenId(1));
    let mut ended = lease(2, Party::Org(OrgId(0)), tenant, 2, 500, 0, None);
    ended.status = ContractStatus::Ended;
    w.contracts = vec![
        lease(0, Party::Org(OrgId(0)), tenant, 0, 2000, 0, None),
        lease(1, Party::Citizen(CitizenId(0)), tenant, 1, 200_000, 0, Some(1)),
        ended,
    ];
    let mut b = TickBuilder::new(w, 0);
    cycle_end_8d_rent(&mut b);
    assert_eq!(b.events.len(), 4);
    assert!(matches!(b.events[0], Event::RentPaid { contract: ContractId(0), amount: Money(2000) }));
    assert!(matches!(b.events[1], Event::RentMissed { contract: ContractId(1), owed: Money(200_000) }));
    assert!(matches!(b.events[2], Event::LeaseEnded { contract: ContractId(1), evicted: false }));
    assert!(matches!(b.events[3], Event::DwellingOccupied { dwelling: DwellingId(1), citizen: None }));
    assert_eq!(b.world.citizens[1].household.balance, Money(98_000));
    assert_eq!(b.world.orgs[0].treasury, Money(2000));
    assert_eq!(b.world.contracts[1].status, ContractStatus::Ended);
    assert!(matches!(b.world.contracts[1].body, ContractBody::Lease { missed_cycles: 1, .. }));
    assert!(conservation_check(&b.world).is_ok());
}

#[test]
fn tenants_past_the_grace_are_evicted_when_a_cycle_opens() {
    let mut w = fresh("freeport");
    joined(&mut w, 2);
    let tenant = Party::Citizen(CitizenId(1));
    w.contracts = vec![
        lease(0, Party::Citizen(CitizenId(0)), tenant, 0, 2000, 2, None),
        lease(1, Party::Citizen(CitizenId(0)), tenant, 1, 2000, 1, None),
    ];
    let mut b = TickBuilder::new(w.clone(), 5);
    phase_7_evictions(&mut b);
    assert!(b.events.is_empty());
    let mut b = TickBuilder::new(w, 24);
    phase_7_evictions(&mut b);
    assert_eq!(b.events.len(), 2);
    assert!(matches!(b.events[0], Event::LeaseEnded { contract: ContractId(0), evicted: true }));
    assert!(matches!(b.events[1], Event::DwellingOccupied { dwelling: DwellingId(0), citizen: None }));
    assert_eq!(b.world.contracts[0].status, ContractStatus::Ended);
    assert_eq!(b.world.contracts[1].status, ContractStatus::Active);
}

#[test]
fn dividends_are_paid_in_full_or_pro_rata() {
    let mut w = fresh("freeport");
    joined(&mut w, 3);
    let line = |c: u32, q: u64| ShareHolding { holder: ShareHolder::Citizen(CitizenId(c)), qty: q };
    firm(
        &mut w,
        0,
        isms_core::world::Ownership::Shares {
            issued: 100,
            holdings: vec![line(0, 60), line(1, 30), ShareHolding { holder: ShareHolder::OrgSelf, qty: 10 }],
        },
    );
    firm(&mut w, 1, isms_core::world::Ownership::Shares { issued: 100, holdings: vec![line(2, 50), line(1, 50)] });
    firm(&mut w, 2, isms_core::world::Ownership::Shares { issued: 10, holdings: vec![line(0, 10)] });
    apply(&mut w, &Event::Seeded { holder: Holder::Org(OrgId(0)), asset: Asset::Money(Money(2000)) });
    apply(&mut w, &Event::Seeded { holder: Holder::Org(OrgId(1)), asset: Asset::Money(Money(300)) });
    apply(&mut w, &Event::Seeded { holder: Holder::Org(OrgId(2)), asset: Asset::Money(Money(300)) });
    apply(&mut w, &Event::DividendDeclared { org: OrgId(0), per_share: Money(10), cycle: 0 });
    apply(&mut w, &Event::DividendDeclared { org: OrgId(1), per_share: Money(10), cycle: 0 });
    let mut b = TickBuilder::new(w, 23);
    cycle_end_8e_dividends(&mut b);
    assert_eq!(b.events.len(), 4);
    assert!(matches!(b.events[0], Event::DividendPaid { org: OrgId(0), citizen: CitizenId(0), amount: Money(600) }));
    assert!(matches!(b.events[1], Event::DividendPaid { org: OrgId(0), citizen: CitizenId(1), amount: Money(300) }));
    // 1000 owed from a treasury of 300: each line gets its share of it.
    assert!(matches!(b.events[2], Event::DividendPaid { org: OrgId(1), citizen: CitizenId(2), amount: Money(150) }));
    assert!(matches!(b.events[3], Event::DividendPaid { org: OrgId(1), citizen: CitizenId(1), amount: Money(150) }));
    assert_eq!(b.world.orgs[0].treasury, Money(1100));
    assert_eq!(b.world.orgs[1].treasury, Money(0));
    assert_eq!(b.world.orgs[2].treasury, Money(300));
    assert_eq!(b.world.citizens[1].household.balance, Money(100_450));
    assert!(conservation_check(&b.world).is_ok());
}

fn loan(id: u32, lender: Party, borrower: Party, principal: i64, installment: i64, left: u32, term: u32, collateral: Option<Collateral>) -> Contract {
    Contract {
        id: ContractId(id),
        parties: (lender, borrower),
        created_tick: 0,
        term_cycles: Some(term),
        status: ContractStatus::Active,
        body: ContractBody::Credit {
            principal: Money(principal),
            rate_per_cycle_bp: 0,
            installment: Money(installment),
            installments_left: left,
            collateral,
            missed: false,
        },
    }
}

#[test]
fn installments_are_paid_or_missed_and_the_last_repays() {
    let mut w = fresh("freeport");
    joined(&mut w, 2);
    firm(
        &mut w,
        0,
        isms_core::world::Ownership::Shares {
            issued: 100,
            holdings: vec![ShareHolding { holder: ShareHolder::Citizen(CitizenId(0)), qty: 60 }],
        },
    );
    w.share_escrow = vec![isms_core::world::SharesEscrowed {
        key: isms_core::world::EscrowKey::Contract(ContractId(1)),
        org: OrgId(0),
        qty: 40,
    }];
    let lender = Party::Citizen(CitizenId(0));
    let borrower = Party::Citizen(CitizenId(1));
    w.contracts = vec![
        loan(0, lender, borrower, 1000, 250, 3, 4, None),
        loan(1, lender, borrower, 1000, 333, 1, 3, Some(Collateral::Shares(OrgId(0), 40))),
        loan(2, borrower, lender, 500_000_000, 500_000_000, 2, 2, None),
    ];
    let mut b = TickBuilder::new(w, 23);
    cycle_end_8c_credit_installments(&mut b);
    assert_eq!(b.events.len(), 4);
    assert!(matches!(b.events[0], Event::CreditInstallment { contract: ContractId(0), amount: Money(250), remaining: 2 }));
    // The last installment takes the remainder: 1000 - 2 x 333.
    assert!(matches!(b.events[1], Event::CreditInstallment { contract: ContractId(1), amount: Money(334), remaining: 0 }));
    assert!(matches!(b.events[2], Event::CreditRepaid { contract: ContractId(1) }));
    assert!(matches!(b.events[3], Event::CreditMissed { contract: ContractId(2), owed: Money(500_000_000) }));
    assert_eq!(b.world.citizens[1].household.balance, Money(100_000 - 250 - 334));
    assert_eq!(b.world.citizens[0].household.balance, Money(100_000 + 250 + 334));
    assert_eq!(b.world.contracts[1].status, ContractStatus::Ended);
    assert!(b.world.share_escrow.is_empty());
    match &b.world.orgs[0].ownership {
        isms_core::world::Ownership::Shares { holdings, .. } => assert_eq!(
            holdings,
            &vec![
                ShareHolding { holder: ShareHolder::Citizen(CitizenId(0)), qty: 60 },
                ShareHolding { holder: ShareHolder::Citizen(CitizenId(1)), qty: 40 },
            ]
        ),
        _ => panic!("a firm keeps its registry"),
    }
    assert!(matches!(b.world.contracts[2].body, ContractBody::Credit { missed: true, .. }));
    assert!(conservation_check(&b.world).is_ok());
}

#[test]
fn a_missed_installment_defaults_when_the_cycle_opens() {
    let mut w = fresh("freeport");
    joined(&mut w, 2);
    let lender = Party::Citizen(CitizenId(0));
    let borrower = Party::Citizen(CitizenId(1));
    let mut missed = loan(0, lender, borrower, 1000, 500, 2, 2, None);
    if let ContractBody::Credit { missed: m, .. } = &mut missed.body {
        *m = true;
    }
    w.contracts = vec![missed, loan(1, lender, borrower, 1000, 500, 2, 2, None)];
    let mut b = TickBuilder::new(w.clone(), 3);
    phase_7_defaults(&mut b);
    assert!(b.events.is_empty());
    let mut b = TickBuilder::new(w, 24);
    phase_7_defaults(&mut b);
    assert_eq!(b.events.len(), 1);
    assert!(matches!(b.events[0], Event::CreditDefaulted { contract: ContractId(0), collateral_seized: None }));
    assert_eq!(b.world.contracts[0].status, ContractStatus::Ended);
    assert!(b.world.citizens[1].flags.defaulted);
    assert!(!b.world.citizens[0].flags.defaulted);
}

#[test]
fn depth_lists_each_price_level_best_first() {
    let mut w = fresh("freeport");
    let order = |id: u32, side: Side, remaining: u32, price: i64| Order {
        id: OrderId(id),
        owner: Party::Citizen(CitizenId(0)),
        instrument: Instrument::Good(Good::Food),
        side,
        qty: 10,
        remaining,
        limit_price: Money(price),
        placed_tick: 0,
        expires_tick: 47,
        source: OrderSource::Manual,
    };
    w.books.push(OrderBook {
        instrument: Instrument::Good(Good::Food),
        orders: vec![
            order(0, Side::Ask, 3, 500),
            order(1, Side::Ask, 2, 450),
            order(2, Side::Ask, 1, 500),
            order(3, Side::Bid, 2, 400),
            order(4, Side::Bid, 1, 420),
            order(5, Side::Ask, 0, 300),
        ],
        last_price: None,
        last_trade_tick: None,
        tick_volume: 0,
        tick_value: Money(0),
    });
    assert_eq!(depth(&w, Instrument::Good(Good::Food), Side::Ask), vec![(Money(450), 2), (Money(500), 4)]);
    assert_eq!(depth(&w, Instrument::Good(Good::Food), Side::Bid), vec![(Money(420), 1), (Money(400), 2)]);
    assert!(depth(&w, Instrument::Good(Good::Wares), Side::Ask).is_empty());
}

#[test]
fn candidates_rank_by_approvals_then_fewer_terms_then_id() {
    let mut w = fresh("freeport");
    joined(&mut w, 4);
    w.citizens[3].dormant = true;
    w.offices.records.push(isms_core::world::OfficeRecord {
        citizen: CitizenId(2),
        kind: OfficeKind::Coordinator,
        terms: 1,
    });
    let approval = |voter: u32, approves: Vec<u32>| isms_core::world::Approval {
        voter: CitizenId(voter),
        approves: approves.into_iter().map(CitizenId).collect(),
    };
    let election = isms_core::world::Election {
        office: OfficeKind::Coordinator,
        candidates: vec![CitizenId(2), CitizenId(0), CitizenId(1), CitizenId(3)],
        approvals: vec![approval(0, vec![0, 2]), approval(1, vec![2]), approval(2, vec![1, 0]), approval(3, vec![3])],
    };
    assert_eq!(
        ranked(&w, &election),
        vec![(CitizenId(0), 2), (CitizenId(2), 2), (CitizenId(1), 1)]
    );
}

fn created(name: &str, labor: LaborMode) -> World {
    let mut p = preset(name);
    p.constitution.labor = labor;
    let mut w = World::new(0, 0, &p);
    apply(&mut w, &Event::SocietyCreated { society_id: 7, seed: 42, preset: Box::new(p) });
    w
}

#[test]
fn a_market_epoch_seeds_legacy_firms_dwellings_householders_and_managers() {
    let w = created("freeport", LaborMode::Free);
    let v = start_epoch(&w, 0);
    assert_eq!(v.len(), 1 + 7 * 3 + 10 + 10 + 7);
    assert!(matches!(v[0], Event::EpochStarted { epoch: 0 }));
    match &v[1] {
        Event::OrgFounded { org, kind, name, founder, ownership, manager, fee_burned } => {
            assert_eq!(*org, OrgId(0));
            assert_eq!(*kind, OrgKind::Firm);
            assert_eq!(name, "Legacy Farm No. 1");
            assert!(founder.is_none() && manager.is_none());
            assert_eq!(*fee_burned, Money(0));
            match ownership {
                isms_core::world::Ownership::Shares { issued, holdings } => {
                    assert_eq!(*issued, 100);
                    assert_eq!(holdings, &vec![ShareHolding { holder: ShareHolder::OrgSelf, qty: 100 }]);
                },
                _ => panic!("a firm has a share registry"),
            }
        },
        other => panic!("expected the first legacy org, got {other:?}"),
    }
    assert!(matches!(v[2], Event::WorkplaceAdded { workplace: WorkplaceId(0), org: OrgId(0), kind: WorkplaceKind::Farm, slot: Some(SlotId(0)), materials_consumed: 0 }));
    assert!(matches!(v[3], Event::Seeded { holder: Holder::Org(OrgId(0)), asset: Asset::Money(m) } if m == Money::credits(500)));
    // The Mine's slots come after the Farm's four.
    assert!(matches!(v[5], Event::WorkplaceAdded { kind: WorkplaceKind::Mine, slot: Some(SlotId(4)), .. }));
    match &v[19] {
        Event::OrgFounded { name, .. } => assert_eq!(name, "Legacy Builders No. 1"),
        other => panic!("expected the Builders, got {other:?}"),
    }
    // Builders' land is unlimited: no slot.
    assert!(matches!(v[20], Event::WorkplaceAdded { kind: WorkplaceKind::Builder, slot: None, .. }));
    // The Builders own every first dwelling.
    for i in 0..10u32 {
        assert!(matches!(v[22 + i as usize], Event::DwellingBuilt { dwelling, org: OrgId(6), workplace: None, materials_consumed: 0 } if dwelling == DwellingId(i)));
    }
    // Ten householders, unhoused, with the endowment.
    match &v[32] {
        Event::HouseholderJoined { citizen, handle, endowment, dwelling } => {
            assert_eq!(*citizen, CitizenId(0));
            assert_eq!(handle, "H-0");
            assert_eq!(*endowment, Money::credits(1000));
            assert!(dwelling.is_none());
        },
        other => panic!("expected a householder, got {other:?}"),
    }
    // One manager per org, round robin over the new householders.
    for i in 0..7u32 {
        assert!(matches!(v[42 + i as usize], Event::ManagerAppointed { org, citizen: Some(c) } if org == OrgId(i) && c == CitizenId(i)));
    }
}

#[test]
fn a_commune_epoch_houses_and_assigns_its_householders() {
    let w = created("commune", LaborMode::Assigned);
    let v = start_epoch(&w, 0);
    // No money: no treasuries; the goods would go to the Common Store.
    assert!(!v.iter().any(|e| matches!(e, Event::Seeded { .. })));
    assert!(matches!(&v[1], Event::OrgFounded { kind: OrgKind::Collective, .. }));
    let joins: Vec<(CitizenId, Option<DwellingId>, Money)> = v
        .iter()
        .filter_map(|e| match e {
            Event::HouseholderJoined { citizen, dwelling, endowment, .. } => Some((*citizen, *dwelling, *endowment)),
            _ => None,
        })
        .collect();
    assert_eq!(joins.len(), 10);
    for (i, (c, d, e)) in joins.iter().enumerate() {
        assert_eq!(*c, CitizenId(i as u32));
        assert_eq!(*d, Some(DwellingId(i as u32)));
        assert_eq!(*e, Money(0));
    }
    // Balanced over the seven workplaces, earliest first where they tie.
    let seats: Vec<u32> = v
        .iter()
        .filter_map(|e| match e {
            Event::Assigned { workplace, .. } => Some(workplace.0),
            _ => None,
        })
        .collect();
    assert_eq!(seats, vec![0, 1, 2, 3, 4, 5, 6, 0, 1, 2]);
    assert_eq!(v.len(), 1 + 7 * 2 + 10 + 10 * 2 + 7);
}

#[test]
fn a_later_epoch_fills_the_whole_floor_and_a_directorate_shares_one_till() {
    let mut w = created("directorate", LaborMode::Free);
    joined(&mut w, 3);
    let first = start_epoch(&w, 0);
    let later = start_epoch(&w, 1);
    let householders = |v: &Vec<Event>| v.iter().filter(|e| matches!(e, Event::HouseholderJoined { .. })).count();
    assert_eq!(householders(&first), 7);
    assert_eq!(householders(&later), 10);
    assert!(matches!(&first[1], Event::OrgFounded { kind: OrgKind::StateEnterprise, .. }));
    assert!(matches!(first[3], Event::Seeded { holder: Holder::StateStock, asset: Asset::Money(_) }));
}

fn by(c: u32) -> Envelope<()> {
    Envelope::citizen(CitizenId(c), (), 0)
}

fn act(w: &mut World, events: &[Event]) {
    for e in events {
        apply(w, e);
    }
}

fn code<T: std::fmt::Debug>(r: Result<T, isms_core::command::Reject>) -> RejectCode {
    r.unwrap_err().code
}

#[test]
fn commands_need_an_active_citizen() {
    let mut w = fresh("freeport");
    joined(&mut w, 2);
    assert_eq!(code(acting_citizen(&w, &Envelope::system((), 0))), RejectCode::NotAuthorized);
    assert_eq!(code(acting_citizen(&w, &by(9))), RejectCode::UnknownCitizen);
    w.citizens[1].dormant = true;
    assert_eq!(code(acting_citizen(&w, &by(1))), RejectCode::Dormant);
    assert_eq!(acting_citizen(&w, &by(0)).unwrap().id, CitizenId(0));
}

#[test]
fn a_sighting_is_recorded_once_a_tick_and_wakes_the_dormant() {
    let mut w = fresh("freeport");
    joined(&mut w, 2);
    let e = Envelope::citizen(CitizenId(0), (), 5);
    let v = seen(&w, &e).unwrap();
    assert_eq!(v.len(), 1);
    assert!(matches!(v[0], Event::CitizenSeen { citizen: CitizenId(0), tick: 5, .. }));
    act(&mut w, &v);
    assert!(seen(&w, &e).unwrap().is_empty());
    w.citizens[1].dormant = true;
    let v = seen(&w, &Envelope::citizen(CitizenId(1), (), 5)).unwrap();
    assert_eq!(v.len(), 2);
    assert!(matches!(v[1], Event::CitizenReturned { citizen: CitizenId(1) }));
    assert_eq!(code(seen(&w, &Envelope::system((), 5))), RejectCode::NotAuthorized);
}

#[test]
fn founding_a_firm_takes_the_fee_and_the_materials() {
    let mut w = fresh("freeport");
    joined(&mut w, 2);
    assert_eq!(code(found_org(&w, &by(0), OrgKind::Firm, " \t ", None)), RejectCode::InvalidQuantity);
    assert_eq!(code(found_org(&w, &by(0), OrgKind::Collective, "Acme", None)), RejectCode::NotAuthorized);
    assert_eq!(
        code(found_org(&w, &by(0), OrgKind::Firm, "Acme", Some((WorkplaceKind::Farm, None)))),
        RejectCode::InsufficientGoods
    );
    w.citizens[1].flags.options_narrowed = true;
    assert_eq!(code(found_org(&w, &by(1), OrgKind::Firm, "Acme", None)), RejectCode::OptionsNarrowed);
    apply(&mut w, &Event::Seeded { holder: Holder::Citizen(CitizenId(0)), asset: Asset::Good(Good::Materials, 10) });
    let v = found_org(&w, &by(0), OrgKind::Firm, "Acme", Some((WorkplaceKind::Farm, None))).unwrap();
    assert_eq!(v.len(), 3);
    match &v[0] {
        Event::OrgFounded { org, kind, name, founder, ownership, manager, fee_burned } => {
            assert_eq!(*org, OrgId(0));
            assert_eq!(*kind, OrgKind::Firm);
            assert_eq!(name, "Acme");
            assert_eq!(*founder, Some(CitizenId(0)));
            assert_eq!(*manager, Some(CitizenId(0)));
            assert_eq!(*fee_burned, Money::credits(100));
            match ownership {
                isms_core::world::Ownership::Shares { issued, holdings } => {
                    assert_eq!(*issued, 100);
                    assert_eq!(holdings, &vec![ShareHolding { holder: ShareHolder::Citizen(CitizenId(0)), qty: 100 }]);
                },
                _ => panic!("a firm has a share registry"),
            }
        },
        other => panic!("expected the founding, got {other:?}"),
    }
    match &v[1] {
        Event::Transferred { from, to, asset, memo } => {
            assert_eq!(*from, Party::Citizen(CitizenId(0)));
            assert_eq!(*to, Party::Org(OrgId(0)));
            assert_eq!(*asset, Asset::Good(Good::Materials, 10));
            assert_eq!(memo, "founding");
        },
        other => panic!("expected the materials, got {other:?}"),
    }
    assert!(matches!(v[2], Event::WorkplaceAdded { workplace: WorkplaceId(0), org: OrgId(0), kind: WorkplaceKind::Farm, slot: Some(SlotId(0)), materials_consumed: 10 }));
    act(&mut w, &v);
    assert_eq!(w.citizens[0].household.balance, Money::credits(900));
    assert!(conservation_check(&w).is_ok());
    // Without a first workplace there is only the org; the fee still applies.
    let v = found_org(&w, &by(0), OrgKind::Association, "Club", None).unwrap();
    assert_eq!(v.len(), 1);
}

fn founded_firm() -> World {
    let mut w = fresh("freeport");
    joined(&mut w, 3);
    apply(&mut w, &Event::Seeded { holder: Holder::Citizen(CitizenId(0)), asset: Asset::Good(Good::Materials, 10) });
    let v = found_org(&w, &by(0), OrgKind::Firm, "Acme", Some((WorkplaceKind::Farm, None))).unwrap();
    act(&mut w, &v);
    w
}

#[test]
fn managers_add_workplaces_and_move_machines() {
    let mut w = founded_firm();
    assert_eq!(code(add_workplace(&w, &by(1), OrgId(0), WorkplaceKind::Mine, None)), RejectCode::NotManager);
    assert_eq!(
        code(add_workplace(&w, &by(0).on_behalf_of(OrgId(5)), OrgId(0), WorkplaceKind::Mine, None)),
        RejectCode::NotAuthorized
    );
    assert_eq!(code(add_workplace(&w, &by(0), OrgId(0), WorkplaceKind::Mine, None)), RejectCode::InsufficientGoods);
    assert_eq!(code(add_workplace(&w, &by(0), OrgId(7), WorkplaceKind::Mine, None)), RejectCode::UnknownOrg);
    apply(&mut w, &Event::Seeded { holder: Holder::Org(OrgId(0)), asset: Asset::Good(Good::Materials, 10) });
    let v = add_workplace(&w, &by(0), OrgId(0), WorkplaceKind::Mine, None).unwrap();
    assert!(matches!(v[..], [Event::WorkplaceAdded { workplace: WorkplaceId(1), org: OrgId(0), kind: WorkplaceKind::Mine, slot: Some(SlotId(4)), materials_consumed: 10 }]));
    assert_eq!(code(install_machines(&w, &by(0), OrgId(0), WorkplaceId(0), 0)), RejectCode::InvalidQuantity);
    assert_eq!(code(install_machines(&w, &by(0), OrgId(0), WorkplaceId(0), 2)), RejectCode::InsufficientGoods);
    assert_eq!(code(install_machines(&w, &by(0), OrgId(0), WorkplaceId(3), 2)), RejectCode::UnknownWorkplace);
    apply(&mut w, &Event::Seeded { holder: Holder::Org(OrgId(0)), asset: Asset::Good(Good::Machines, 3) });
    let v = install_machines(&w, &by(0), OrgId(0), WorkplaceId(0), 2).unwrap();
    assert!(matches!(v[..], [Event::MachinesInstalled { workplace: WorkplaceId(0), qty: 2 }]));
    act(&mut w, &v);
    assert_eq!(code(uninstall_machines(&w, &by(0), OrgId(0), WorkplaceId(0), 3)), RejectCode::InvalidQuantity);
    let v = uninstall_machines(&w, &by(0), OrgId(0), WorkplaceId(0), 2).unwrap();
    assert!(matches!(v[..], [Event::MachinesUninstalled { workplace: WorkplaceId(0), qty: 2 }]));
}

#[test]
fn the_controlling_owner_appoints_issues_and_declares() {
    let mut w = founded_firm();
    assert_eq!(code(appoint_manager(&w, &by(1), OrgId(0), Some(CitizenId(1)))), RejectCode::NotControllingOwner);
    assert_eq!(code(appoint_manager(&w, &by(0), OrgId(0), Some(CitizenId(9)))), RejectCode::UnknownCitizen);
    let v = appoint_manager(&w, &by(0), OrgId(0), Some(CitizenId(1))).unwrap();
    assert!(matches!(v[..], [Event::ManagerAppointed { org: OrgId(0), citizen: Some(CitizenId(1)) }]));
    assert_eq!(code(issue_shares(&w, &by(0), OrgId(0), 0)), RejectCode::InvalidQuantity);
    assert_eq!(code(issue_shares(&w, &by(1), OrgId(0), 5)), RejectCode::NotControllingOwner);
    assert!(matches!(issue_shares(&w, &by(0), OrgId(0), 50).unwrap()[..], [Event::SharesIssued { org: OrgId(0), qty: 50 }]));
    assert_eq!(code(declare_dividend(&w, &by(0), OrgId(0), Money(0))), RejectCode::InvalidPrice);
    // 100 citizen-held shares at 1.00 each: 100.00 against an empty treasury.
    assert_eq!(code(declare_dividend(&w, &by(0), OrgId(0), Money::credits(1))), RejectCode::InsufficientFunds);
    apply(&mut w, &Event::Seeded { holder: Holder::Org(OrgId(0)), asset: Asset::Money(Money::credits(100)) });
    let v = declare_dividend(&w, &by(0), OrgId(0), Money::credits(1)).unwrap();
    assert!(matches!(v[..], [Event::DividendDeclared { org: OrgId(0), per_share, cycle: 0 }] if per_share == Money::credits(1)));
    act(&mut w, &v);
    assert_eq!(code(declare_dividend(&w, &by(0), OrgId(0), Money::credits(1))), RejectCode::AlreadyExists);
}

#[test]
fn owners_move_in_and_out_of_their_own_dwellings() {
    let mut w = founded_firm();
    apply(&mut w, &Event::DwellingBuilt { dwelling: DwellingId(0), org: OrgId(0), workplace: None, materials_consumed: 0 });
    apply(&mut w, &Event::DwellingTransferred { dwelling: DwellingId(0), to: Owner::Citizen(CitizenId(0)) });
    assert_eq!(code(move_in(&w, &by(0), DwellingId(4))), RejectCode::UnknownDwelling);
    assert_eq!(code(move_in(&w, &by(1), DwellingId(0))), RejectCode::NotOwner);
    let v = move_in(&w, &by(0), DwellingId(0)).unwrap();
    assert!(matches!(v[..], [Event::DwellingOccupied { dwelling: DwellingId(0), citizen: Some(CitizenId(0)) }]));
    assert_eq!(code(move_out(&w, &by(0), DwellingId(0))), RejectCode::NotParty);
    act(&mut w, &v);
    assert_eq!(code(move_in(&w, &by(0), DwellingId(0))), RejectCode::AlreadyExists);
    assert_eq!(code(move_out(&w, &by(1), DwellingId(0))), RejectCode::NotParty);
    let v = move_out(&w, &by(0), DwellingId(0)).unwrap();
    assert!(matches!(v[..], [Event::DwellingOccupied { dwelling: DwellingId(0), citizen: None }]));
}

#[test]
fn members_request_are_admitted_and_leave() {
    let mut w = fresh("freeport");
    joined(&mut w, 3);
    let v = found_org(&w, &by(0), OrgKind::Association, "Club", None).unwrap();
    act(&mut w, &v);
    assert_eq!(code(request_membership(&w, &by(0), OrgId(0))), RejectCode::AlreadyExists);
    let v = request_membership(&w, &by(1), OrgId(0)).unwrap();
    assert!(matches!(v[..], [Event::MembershipRequested { org: OrgId(0), citizen: CitizenId(1), .. }]));
    act(&mut w, &v);
    assert_eq!(code(request_membership(&w, &by(1), OrgId(0))), RejectCode::AlreadyExists);
    assert_eq!(code(admit_member(&w, &by(1), OrgId(0), CitizenId(1))), RejectCode::NotManager);
    assert_eq!(code(admit_member(&w, &by(0), OrgId(0), CitizenId(8))), RejectCode::UnknownCitizen);
    let v = admit_member(&w, &by(0), OrgId(0), CitizenId(1)).unwrap();
    assert!(matches!(v[..], [Event::MemberAdmitted { org: OrgId(0), citizen: CitizenId(1) }]));
    act(&mut w, &v);
    assert_eq!(code(admit_member(&w, &by(0), OrgId(0), CitizenId(1))), RejectCode::AlreadyExists);
    assert_eq!(code(leave_org(&w, &by(2), OrgId(0))), RejectCode::NotParty);
    assert!(matches!(leave_org(&w, &by(1), OrgId(0)).unwrap()[..], [Event::MemberLeft { org: OrgId(0), citizen: CitizenId(1) }]));
    assert!(matches!(
        leave_org(&w, &by(0), OrgId(0)).unwrap()[..],
        [Event::MemberLeft { org: OrgId(0), citizen: CitizenId(0) }, Event::ManagerAppointed { org: OrgId(0), citizen: None }]
    ));
    // A firm has no members.
    let f = founded_firm();
    assert_eq!(code(request_membership(&f, &by(1), OrgId(0))), RejectCode::NotInThisSociety);
}

#[test]
fn positions_are_taken_and_given_up_without_contracts() {
    let mut w = founded_firm();
    let v = join_workplace(&w, &by(1), WorkplaceId(0)).unwrap();
    assert!(matches!(v[..], [Event::Assigned { workplace: WorkplaceId(0), citizen: CitizenId(1), contract: None }]));
    act(&mut w, &v);
    assert_eq!(code(join_workplace(&w, &by(1), WorkplaceId(0))), RejectCode::AlreadyExists);
    assert_eq!(code(join_workplace(&w, &by(1), WorkplaceId(6))), RejectCode::UnknownWorkplace);
    assert_eq!(code(leave_workplace(&w, &by(2), WorkplaceId(0))), RejectCode::NotAssigned);
    let v = leave_workplace(&w, &by(1), WorkplaceId(0)).unwrap();
    assert!(matches!(v[..], [Event::Unassigned { workplace: WorkplaceId(0), citizen: CitizenId(1) }]));
    act(&mut w, &v);
    assert!(w.workplaces[0].workers.is_empty());
    assert!(conservation_check(&w).is_ok());
    // Two positions at most.
    apply(&mut w, &Event::WorkplaceAdded { workplace: WorkplaceId(1), org: OrgId(0), kind: WorkplaceKind::Builder, slot: None, materials_consumed: 0 });
    apply(&mut w, &Event::WorkplaceAdded { workplace: WorkplaceId(2), org: OrgId(0), kind: WorkplaceKind::Builder, slot: None, materials_consumed: 0 });
    for wp in 0..2 {
        let v = join_workplace(&w, &by(2), WorkplaceId(wp)).unwrap();
        act(&mut w, &v);
    }
    assert_eq!(code(join_workplace(&w, &by(2), WorkplaceId(2))), RejectCode::TooManyWorkplaces);
    // A position under a contract is left by ending the contract.
    apply(&mut w, &Event::Assigned { workplace: WorkplaceId(2), citizen: CitizenId(0), contract: Some(ContractId(4)) });
    assert_eq!(code(leave_workplace(&w, &by(0), WorkplaceId(2))), RejectCode::NotAssigned);
}

#[test]
fn leaving_a_coop_gives_up_its_positions() {
    let mut w = fresh("freeport");
    joined(&mut w, 2);
    apply(&mut w, &Event::Seeded { holder: Holder::Citizen(CitizenId(0)), asset: Asset::Good(Good::Materials, 10) });
    let v = found_org(&w, &by(0), OrgKind::Cooperative, "Co", Some((WorkplaceKind::Builder, None))).unwrap();
    act(&mut w, &v);
    apply(&mut w, &Event::Assigned { workplace: WorkplaceId(0), citizen: CitizenId(0), contract: None });
    let o = w.orgs[0].clone();
    assert!(matches!(
        leave_events(&w, &o, CitizenId(0))[..],
        [Event::MemberLeft { org: OrgId(0), citizen: CitizenId(0) }, Event::Unassigned { workplace: WorkplaceId(0), citizen: CitizenId(0) }]
    ));
    assert_eq!(leave_events(&w, &o, CitizenId(1)).len(), 1);
    let v = leave_org(&w, &by(0), OrgId(0)).unwrap();
    assert_eq!(v.len(), 3);
    act(&mut w, &v);
    assert!(w.orgs[0].members.is_empty());
    assert!(w.orgs[0].manager.is_none());
    assert!(w.workplaces[0].workers.is_empty());
}

#[test]
fn a_cycle_of_hardship_is_counted_flagged_and_costs_hours() {
    let mut w = fresh("freeport");
    joined(&mut w, 3);
    // Low on food all 24 ticks, the third such cycle running: destitute.
    w.citizens[0].needs.low_food_ticks_this_cycle = 24;
    w.citizens[0].needs.consecutive_hardship_cycles = 2;
    // Out of hardship now, after three cycles of high effort.
    w.citizens[1].flags.in_hardship = true;
    w.citizens[1].needs.consecutive_hardship_cycles = 1;
    w.citizens[1].labor.consecutive_high_effort_cycles = 3;
    // Dormant citizens are left alone.
    w.citizens[2].dormant = true;
    w.citizens[2].needs.low_food_ticks_this_cycle = 24;
    let mut b = TickBuilder::new(w, 23);
    cycle_end_8h_hardship_and_fatigue(&mut b);
    assert_eq!(b.events.len(), 3);
    assert!(matches!(b.events[0], Event::HardshipBegan { citizen: CitizenId(0), cycle: 0 }));
    assert!(matches!(b.events[1], Event::DestitutionBegan { citizen: CitizenId(0), cycle: 0 }));
    assert!(matches!(b.events[2], Event::HardshipEnded { citizen: CitizenId(1), cycle: 0 }));
    let c0 = &b.world.citizens[0];
    assert_eq!(c0.needs.low_food_ticks_this_cycle, 0);
    assert_eq!(c0.needs.consecutive_hardship_cycles, 3);
    assert_eq!(c0.labor.fatigue_debt, 2);
    assert_eq!(c0.labor.budget, 6);
    assert!(c0.flags.in_hardship && c0.flags.destitute && c0.flags.options_narrowed);
    let c1 = &b.world.citizens[1];
    assert_eq!(c1.needs.consecutive_hardship_cycles, 0);
    assert_eq!(c1.labor.fatigue_debt, 2);
    assert_eq!(c1.labor.budget, 6);
    assert!(!c1.flags.in_hardship);
    assert_eq!(b.world.citizens[2].needs.low_food_ticks_this_cycle, 24);
    // Both debts together are capped at three hours.
    let mut w = fresh("freeport");
    joined(&mut w, 1);
    w.citizens[0].needs.low_food_ticks_this_cycle = 30;
    w.citizens[0].labor.consecutive_high_effort_cycles = 5;
    let mut b = TickBuilder::new(w, 0);
    cycle_end_8h_hardship_and_fatigue(&mut b);
    assert_eq!(b.world.citizens[0].labor.fatigue_debt, 3);
    assert_eq!(b.world.citizens[0].labor.budget, 5);
    assert_eq!(b.events.len(), 1);
}

#[test]
fn fresh_needs_start_at_the_meter_start() {
    let p = params();
    let n = Needs::at_start(&p);
    assert_eq!((n.food, n.shelter, n.comfort), (800, 800, 800));
    assert_eq!((n.low_food_ticks_this_cycle, n.consecutive_hardship_cycles), (0, 0));
}

#[test]
fn an_event_names_its_kind() {
    assert_eq!(Event::EpochStarted { epoch: 0 }.kind(), "EpochStarted");
    assert_eq!(Event::Unassigned { workplace: WorkplaceId(0), citizen: CitizenId(0) }.kind(), "Unassigned");
    assert_eq!(Event::CreditRepaid { contract: ContractId(1) }.kind(), "CreditRepaid");
    assert_eq!(Event::DestitutionEnded { citizen: CitizenId(0), cycle: 2 }.kind(), "DestitutionEnded");
}

#[test]
fn collateral_must_be_the_borrowers_and_unpledged() {
    let mut w = founded_firm();
    apply(&mut w, &Event::DwellingBuilt { dwelling: DwellingId(0), org: OrgId(0), workplace: None, materials_consumed: 0 });
    apply(&mut w, &Event::DwellingTransferred { dwelling: DwellingId(0), to: Owner::Citizen(CitizenId(0)) });
    let me = Party::Citizen(CitizenId(0));
    assert!(owns_collateral(&w, me, Collateral::Dwelling(DwellingId(0))).is_ok());
    assert_eq!(code(owns_collateral(&w, Party::Citizen(CitizenId(1)), Collateral::Dwelling(DwellingId(0)))), RejectCode::NotOwner);
    assert_eq!(code(owns_collateral(&w, me, Collateral::Dwelling(DwellingId(3)))), RejectCode::UnknownDwelling);
    assert!(owns_collateral(&w, me, Collateral::Shares(OrgId(0), 50)).is_ok());
    assert_eq!(code(owns_collateral(&w, me, Collateral::Shares(OrgId(0), 0))), RejectCode::InsufficientGoods);
    assert_eq!(code(owns_collateral(&w, me, Collateral::Shares(OrgId(0), 101))), RejectCode::InsufficientGoods);
    w.contracts.push(loan(0, Party::Citizen(CitizenId(1)), me, 100, 10, 10, 10, Some(Collateral::Dwelling(DwellingId(0)))));
    assert_eq!(code(owns_collateral(&w, me, Collateral::Dwelling(DwellingId(0)))), RejectCode::AlreadyExists);
}

#[test]
fn a_plan_bids_at_the_best_ask_capped_by_its_limit() {
    let mut w = fresh("freeport");
    let food = Instrument::Good(Good::Food);
    assert_eq!(bid_price(&w, food, Money(300), Money(280)), Money(280));
    assert_eq!(bid_price(&w, food, Money(300), Money(320)), Money(300));
    let order = |id: u32, side: Side, remaining: u32, price: i64| Order {
        id: OrderId(id),
        owner: Party::Citizen(CitizenId(0)),
        instrument: food,
        side,
        qty: 10,
        remaining,
        limit_price: Money(price),
        placed_tick: 0,
        expires_tick: 47,
        source: OrderSource::Manual,
    };
    w.books.push(OrderBook {
        instrument: food,
        orders: vec![order(0, Side::Ask, 3, 500), order(1, Side::Ask, 2, 450), order(2, Side::Bid, 2, 400), order(3, Side::Ask, 0, 300)],
        last_price: None,
        last_trade_tick: None,
        tick_volume: 0,
        tick_value: Money(0),
    });
    assert_eq!(bid_price(&w, food, Money(300), Money(480)), Money(450));
    assert_eq!(bid_price(&w, food, Money(300), Money(420)), Money(420));
    // Bids only: the last price, capped.
    w.books[0].orders = vec![order(2, Side::Bid, 2, 400)];
    assert_eq!(bid_price(&w, food, Money(300), Money(480)), Money(300));
}

#[test]
fn a_plan_acts_through_its_own_client() {
    let e = plan_envelope(CitizenId(3), (), 12);
    assert_eq!(e.actor, Actor::Citizen(CitizenId(3)));
    assert!(e.on_behalf_of.is_none());
    assert_eq!(e.client_kind, ClientKind::Plan);
    assert_eq!(e.received_at_tick, 12);
}

#[test]
fn the_digest_lists_what_touched_a_citizen() {
    let me = CitizenId(1);
    let events = vec![
        Event::EpochStarted { epoch: 0 },
        Event::Paid { citizen: me, org: OrgId(0), contract: None, amount: Money(5) },
        Event::Transferred { from: Party::Citizen(CitizenId(2)), to: Party::Citizen(me), asset: Asset::Money(Money(1)), memo: String::new() },
        Event::ManagerAppointed { org: OrgId(0), citizen: Some(CitizenId(2)) },
        Event::DwellingOccupied { dwelling: DwellingId(0), citizen: Some(me) },
        Event::MemberLeft { org: OrgId(0), citizen: CitizenId(2) },
    ];
    assert!(touches(&events[1], me));
    assert!(!touches(&events[3], me));
    assert_eq!(away_digest(me, &events), vec![1, 2, 4]);
    assert_eq!(away_digest(CitizenId(2), &events), vec![2, 3, 5]);
}

#[test]
fn open_contracts_are_found_by_kind() {
    let mut w = fresh("freeport");
    w.contracts.push(Contract {
        id: ContractId(0),
        parties: (Party::Org(OrgId(0)), Party::Citizen(CitizenId(0))),
        created_tick: 0,
        term_cycles: None,
        status: ContractStatus::Active,
        body: ContractBody::Employment {
            org: OrgId(0),
            workplace: WorkplaceId(2),
            pay: isms_core::world::Pay::Hourly(Money(900)),
            max_hours: 6,
            notice_cycles: 1,
        },
    });
    w.contracts.push(lease(1, Party::Org(OrgId(0)), Party::Citizen(CitizenId(1)), 3, 2000, 0, None));
    let (_, org, wp, _, hours, notice) = employment(&w, ContractId(0)).unwrap();
    assert_eq!((org, wp, hours, notice), (OrgId(0), WorkplaceId(2), 6, 1));
    assert_eq!(code(employment(&w, ContractId(1))), RejectCode::UnknownContract);
    assert_eq!(code(employment(&w, ContractId(9))), RejectCode::UnknownContract);
    let (_, d, rent) = lease_of(&w, ContractId(1)).unwrap();
    assert_eq!((d, rent), (DwellingId(3), Money(2000)));
    assert_eq!(code(lease_of(&w, ContractId(0))), RejectCode::UnknownContract);
    w.contracts[1].status = ContractStatus::Ended;
    assert_eq!(code(lease_of(&w, ContractId(1))), RejectCode::UnknownContract);
}

fn request(citizen: u32, qty: u32) -> StoreRequest {
    StoreRequest { citizen: CitizenId(citizen), good: Good::Food, qty, tick: 0 }
}

fn served(citizen: u32, requested: u32, served: u32) -> Served {
    Served { citizen: CitizenId(citizen), requested, served }
}

#[test]
fn need_first_serves_the_largest_request_first_while_stock_lasts() {
    let order = vec![request(0, 3), request(1, 5), request(2, 3), request(3, 1)];
    let sorted = sort_largest_first(&order);
    assert_eq!(sorted, vec![request(1, 5), request(0, 3), request(2, 3), request(3, 1)]);
    assert_eq!(
        serve_need_first(&order, 9),
        vec![served(1, 5, 5), served(0, 3, 3), served(2, 3, 1), served(3, 1, 0)]
    );
    assert_eq!(serve_in_turn(&order, 20).iter().map(|s| s.served).sum::<u32>(), 12);
    assert!(serve_need_first(&Vec::new(), 4).is_empty());
}

#[test]
fn need_first_breaks_ties_by_the_generator() {
    let requests = vec![request(0, 2), request(1, 2), request(2, 2), request(3, 2), request(4, 6)];
    let mut winners = std::collections::BTreeSet::new();
    for seed in 0..24u64 {
        let mut rng = StdRng::seed_from_u64(seed);
        let v = need_first(&mut rng, &requests, 8);
        // The largest request first and in full, then one tie served, the rest not.
        assert_eq!(v[0], served(4, 6, 6));
        assert_eq!(v[1].served, 2);
        assert!(v[2..].iter().all(|s| s.served == 0 && s.requested == 2));
        let mut who: Vec<u32> = v.iter().map(|s| s.citizen.0).collect();
        who.sort();
        assert_eq!(who, vec![0, 1, 2, 3, 4]);
        winners.insert(v[1].citizen.0);
    }
    // The generator, not the order of arrival, decides among equals.
    assert!(winners.len() > 1);
}

#[test]
fn instruments_read_and_print_by_name() {
    assert_eq!(parse_instrument("food"), Some(Instrument::Good(Good::Food)));
    assert_eq!(parse_instrument("machines"), Some(Instrument::Good(Good::Machines)));
    assert_eq!(parse_instrument("share:3"), Some(Instrument::Share(OrgId(3))));
    assert_eq!(parse_instrument("share:+12"), Some(Instrument::Share(OrgId(12))));
    assert_eq!(parse_instrument("share:"), None);
    assert_eq!(parse_instrument("share:-1"), None);
    assert_eq!(parse_instrument("share:4294967296"), None);
    assert_eq!(parse_instrument("Food"), None);
    assert_eq!(parse_instrument("dwelling"), None);
    assert_eq!(instrument_name(Instrument::Good(Good::Grain)), "grain");
    assert_eq!(instrument_name(Instrument::Share(OrgId(42))), "share:42");
    for i in [Instrument::Good(Good::Ore), Instrument::Good(Good::Wares), Instrument::Share(OrgId(0)), Instrument::Share(OrgId(u32::MAX))] {
        assert_eq!(parse_instrument(&instrument_name(i)), Some(i));
    }
}

#[test]
fn a_schedule_of_a_negative_principal_rounds_toward_zero() {
    let (total, installment, last) = schedule(Money(-10_000), 100, 3);
    assert_eq!((total, installment, last), (Money(-10_300), Money(-3_433), Money(-3_434)));
}

fn job(id: u32, org: u32, worker: u32, term: Option<u32>) -> Contract {
    Contract {
        id: ContractId(id),
        parties: (Party::Org(OrgId(org)), Party::Citizen(CitizenId(worker))),
        created_tick: 0,
        term_cycles: term,
        status: ContractStatus::Active,
        body: ContractBody::Employment {
            org: OrgId(org),
            workplace: WorkplaceId(org),
            pay: isms_core::world::Pay::Hourly(Money(100)),
            max_hours: 8,
            notice_cycles: 1,
        },
    }
}

#[test]
fn payroll_pays_in_full_or_pro_rata_and_ends_expired_terms() {
    let mut w = fresh("freeport");
    joined(&mut w, 3);
    firm(&mut w, 0, isms_core::world::Ownership::Shares { issued: 0, holdings: vec![] });
    firm(&mut w, 1, isms_core::world::Ownership::Shares { issued: 0, holdings: vec![] });
    apply(&mut w, &Event::Seeded { holder: Holder::Org(OrgId(0)), asset: Asset::Money(Money(1000)) });
    apply(&mut w, &Event::Seeded { holder: Holder::Org(OrgId(1)), asset: Asset::Money(Money(100)) });
    w.contracts = vec![job(0, 0, 0, None), job(1, 0, 1, Some(1)), job(2, 1, 2, None)];
    w.orgs[0].employees = vec![ContractId(0), ContractId(1)];
    w.orgs[1].employees = vec![ContractId(2)];
    let accrued = vec![(ContractId(0), Money(300)), (ContractId(1), Money(200)), (ContractId(2), Money(400))];
    let mut b = TickBuilder::new(w, 23);
    cycle_end_8a_payroll(&mut b, &accrued);
    assert_eq!(b.events.len(), 7);
    assert!(matches!(
        b.events[0],
        Event::Paid { citizen: CitizenId(0), org: OrgId(0), contract: Some(ContractId(0)), amount: Money(300) }
    ));
    assert!(matches!(
        b.events[1],
        Event::Paid { citizen: CitizenId(1), org: OrgId(0), contract: Some(ContractId(1)), amount: Money(200) }
    ));
    // The one-cycle term of contract 1 runs out at the end of cycle 0.
    assert!(matches!(
        b.events[2],
        Event::EmploymentTerminated {
            contract: ContractId(1),
            by: Party::Org(OrgId(0)),
            notice_pay: Money(0),
            forfeited: Money(0),
        }
    ));
    assert!(matches!(b.events[3], Event::Unassigned { workplace: WorkplaceId(0), citizen: CitizenId(1) }));
    // 400 owed from a treasury of 100: paid pro rata, missed, and let go.
    assert!(matches!(
        b.events[4],
        Event::Paid { citizen: CitizenId(2), org: OrgId(1), contract: Some(ContractId(2)), amount: Money(100) }
    ));
    assert!(matches!(
        b.events[5],
        Event::PaymentMissed {
            citizen: CitizenId(2),
            org: OrgId(1),
            contract: ContractId(2),
            owed: Money(400),
            paid: Money(100),
        }
    ));
    assert!(matches!(b.events[6], Event::Unassigned { workplace: WorkplaceId(1), citizen: CitizenId(2) }));
    assert_eq!(b.world.orgs[0].treasury, Money(500));
    assert_eq!(b.world.orgs[1].treasury, Money(0));
    assert!(b.world.orgs[1].payment_missed);
    assert_eq!(b.world.orgs[0].employees, vec![ContractId(0)]);
    assert!(b.world.orgs[1].employees.is_empty());
    assert_eq!(b.world.contracts[1].status, ContractStatus::Ended);
    assert_eq!(b.world.contracts[2].status, ContractStatus::Ended);
    assert!(conservation_check(&b.world).is_ok());
}

#[test]
fn payroll_skips_contracts_with_nothing_accrued() {
    let mut w = fresh("freeport");
    joined(&mut w, 2);
    firm(&mut w, 0, isms_core::world::Ownership::Shares { issued: 0, holdings: vec![] });
    apply(&mut w, &Event::Seeded { holder: Holder::Org(OrgId(0)), asset: Asset::Money(Money(1)) });
    w.contracts = vec![job(0, 0, 0, None), job(1, 0, 1, None)];
    w.orgs[0].employees = vec![ContractId(0), ContractId(1)];
    // Contract 1 has nothing accrued; contract 0 is owed 3 from a treasury of 1.
    let accrued = vec![(ContractId(0), Money(3)), (ContractId(1), Money(0))];
    let mut b = TickBuilder::new(w, 0);
    cycle_end_8a_payroll(&mut b, &accrued);
    assert_eq!(b.events.len(), 3);
    assert!(matches!(b.events[0], Event::Paid { citizen: CitizenId(0), amount: Money(1), .. }));
    assert!(matches!(b.events[1], Event::PaymentMissed { contract: ContractId(0), owed: Money(3), paid: Money(1), .. }));
    assert!(matches!(b.events[2], Event::Unassigned { citizen: CitizenId(0), .. }));
    assert_eq!(b.world.contracts[1].status, ContractStatus::Active);
}

#[test]
fn accrued_pay_is_the_first_entry_for_the_contract() {
    let accrued = vec![(ContractId(4), Money(7)), (ContractId(2), Money(5)), (ContractId(4), Money(9))];
    assert_eq!(accrued_for(&accrued, ContractId(4)), Money(7));
    assert_eq!(accrued_for(&accrued, ContractId(2)), Money(5));
    assert_eq!(accrued_for(&accrued, ContractId(3)), Money(0));
}

#[test]
fn refusals_name_what_they_are_about() {
    let mut w = founded_firm();
    assert_eq!(acting_citizen(&w, &by(9)).unwrap_err().message, "no citizen c9");
    let r = add_workplace(&w, &by(0), OrgId(0), WorkplaceKind::Mine, None).unwrap_err();
    assert_eq!(r.message, "a workplace needs 10 Materials; Acme holds 0");
    assert_eq!(add_workplace(&w, &by(0), OrgId(7), WorkplaceKind::Mine, None).unwrap_err().message, "no org o7");
    assert_eq!(install_machines(&w, &by(0), OrgId(0), WorkplaceId(0), 2).unwrap_err().message, "Acme holds 0 Machines");
    assert_eq!(add_workplace(&w, &by(1), OrgId(0), WorkplaceKind::Mine, None).unwrap_err().message, "c1 does not manage Acme");
    w.citizens[2].household.balance = Money(5000);
    let r = found_org(&w, &by(2), OrgKind::Association, "Club", None).unwrap_err();
    assert_eq!(r.message, "founding costs 100.00; balance is 50.00");
    w.citizens[1].dormant = true;
    assert_eq!(acting_citizen(&w, &by(1)).unwrap_err().message, "c1 is dormant");
}

#[test]
fn capabilities_follow_the_constitution() {
    let w = fresh("freeport");
    let rules = Rules::from_world(&w);
    let caps = &rules.capabilities;
    assert!(caps.money && caps.order_books && !caps.administered_prices && !caps.common_store);
    assert_eq!(caps.contracts, vec![ContractKind::Employment, ContractKind::Credit]);
    assert_eq!(caps.monitoring, isms_core::constitution::Monitoring::Medium);
    assert!(caps.allows_contract(ContractKind::Credit) && !caps.allows_contract(ContractKind::Lease));
    assert!(caps.allows_org(OrgKind::Firm) && !caps.allows_org(OrgKind::Cooperative));
    let money = Command::Transfer { to: Party::Citizen(CitizenId(1)), asset: Asset::Money(Money(5)), memo: String::new() };
    assert!(caps.allows(&money));
    assert!(caps.allows(&Command::CancelOrder { order: isms_core::ids::OrderId(0) }));
    assert!(caps.allows(&Command::FoundOrg { kind: OrgKind::Firm, name: "A".to_string(), first_workplace: None }));
    assert!(!caps.allows(&Command::FoundOrg { kind: OrgKind::Cooperative, name: "A".to_string(), first_workplace: None }));
    assert!(!caps.allows(&Command::DeclareDividend { org: OrgId(0), per_share: Money(1) }));
    assert!(!caps.allows(&Command::RequestStoreDraw { good: Good::Food, qty: 1 }));
    assert!(!caps.allows(&Command::JoinWorkplace { workplace: WorkplaceId(0) }));
    assert!(!caps.allows(&Command::Vote { proposal: isms_core::ids::ProposalId(0), ballot: Ballot::Yes }));
    let commune = Rules::from_world(&fresh("commune"));
    assert!(!commune.capabilities.money && commune.capabilities.common_store);
    let goods = Command::Transfer { to: Party::Citizen(CitizenId(1)), asset: Asset::Good(Good::Food, 1), memo: String::new() };
    assert!(commune.capabilities.allows(&goods));
    assert!(!commune.capabilities.allows(&money));
}

#[test]
fn commands_meet_the_epoch_and_the_constitution_first() {
    let mut w = fresh("freeport");
    joined(&mut w, 1);
    let rules = Rules::from_world(&w);
    let dividend = Envelope::citizen(CitizenId(0), Command::DeclareDividend { org: OrgId(0), per_share: Money(1) }, 0);
    let r = gate(&w, &rules, &dividend).unwrap_err();
    assert_eq!(r.code, RejectCode::NotInThisSociety);
    assert_eq!(r.message, "DeclareDividend does not exist in this society");
    let seen_cmd = Envelope::citizen(CitizenId(0), Command::Seen, 0);
    assert!(gate(&w, &rules, &seen_cmd).is_ok());
    w.meta.epoch_ended = Some(isms_core::world::EpochEndReason::Operator);
    assert_eq!(code(gate(&w, &rules, &seen_cmd)), RejectCode::EpochEnded);
}

#[test]
fn accrued_pay_is_hours_times_rate_over_a_cycle() {
    let mut w = founded_firm();
    w.workplaces[0].workers.push(Worker {
        citizen: CitizenId(1),
        assignment: Assignment { contract: None, hours: 4, effort: isms_core::kinds::Effort::Normal, cycle_tick_hours: 30 },
    });
    let hourly = isms_core::world::Pay::Hourly(Money(100));
    // 100 an hour for 30 tick-hours over a 24-tick cycle.
    assert_eq!(accrued_pay(&w, WorkplaceId(0), CitizenId(1), hourly, None, Money(0)), Money(125));
    assert_eq!(accrued_pay(&w, WorkplaceId(0), CitizenId(1), hourly, Some(Money(200)), Money(0)), Money(250));
    assert_eq!(accrued_pay(&w, WorkplaceId(0), CitizenId(1), hourly, Some(Money(50)), Money(0)), Money(125));
    let piece = isms_core::world::Pay::PieceRate(Money(3));
    assert_eq!(accrued_pay(&w, WorkplaceId(0), CitizenId(1), piece, None, Money(42)), Money(42));
    assert_eq!(accrued_pay(&w, WorkplaceId(0), CitizenId(2), hourly, None, Money(42)), Money(0));
    assert_eq!(accrued_pay(&w, WorkplaceId(5), CitizenId(1), piece, None, Money(42)), Money(0));
}

#[test]
fn ending_employment_pays_notice_or_forfeits_accrued_pay() {
    let mut w = fresh("freeport");
    joined(&mut w, 3);
    firm(&mut w, 0, isms_core::world::Ownership::Shares { issued: 0, holdings: vec![] });
    apply(&mut w, &Event::Seeded { holder: Holder::Org(OrgId(0)), asset: Asset::Money(Money(500)) });
    w.orgs[0].manager = Some(CitizenId(2));
    w.contracts = vec![job(0, 0, 0, None)];
    w.orgs[0].employees = vec![ContractId(0)];
    // The employer owes 100 x 8 hours x 1 notice cycle from a treasury of 500.
    let v = terminate_employment(&w, &by(2), ContractId(0), None, Money(0)).unwrap();
    assert_eq!(v.len(), 4);
    assert!(matches!(
        v[0],
        Event::EmploymentTerminated { contract: ContractId(0), by: Party::Org(OrgId(0)), notice_pay: Money(800), forfeited: Money(0) }
    ));
    assert!(matches!(v[1], Event::Unassigned { workplace: WorkplaceId(0), citizen: CitizenId(0) }));
    assert!(matches!(v[2], Event::Paid { citizen: CitizenId(0), org: OrgId(0), contract: Some(ContractId(0)), amount: Money(500) }));
    assert!(matches!(v[3], Event::PaymentMissed { owed: Money(800), paid: Money(500), .. }));
    // The worker who leaves owes and is owed nothing here.
    let v = terminate_employment(&w, &by(0), ContractId(0), None, Money(0)).unwrap();
    assert_eq!(v.len(), 2);
    assert!(matches!(
        v[0],
        Event::EmploymentTerminated { by: Party::Citizen(CitizenId(0)), notice_pay: Money(0), forfeited: Money(0), .. }
    ));
    assert_eq!(code(terminate_employment(&w, &by(1), ContractId(0), None, Money(0))), RejectCode::NotParty);
    let r = terminate_employment(&w, &by(0), ContractId(9), None, Money(0)).unwrap_err();
    assert_eq!(r.code, RejectCode::UnknownContract);
    assert_eq!(r.message, "no contract k9");
}

#[test]
fn citizens_spread_their_hours_over_their_positions() {
    let mut w = founded_firm();
    w.workplaces[0].workers.push(Worker {
        citizen: CitizenId(1),
        assignment: Assignment { contract: None, hours: 0, effort: Effort::Normal, cycle_tick_hours: 0 },
    });
    w.citizens[1].labor.budget = 8;
    let at = |wp: u32, hours: u8| isms_core::world::Allocation { workplace: WorkplaceId(wp), hours, effort: Effort::High };
    let v = set_labor(&w, &by(1), &vec![at(0, 6)]).unwrap();
    assert_eq!(v.len(), 1);
    assert!(matches!(&v[0], Event::LaborSet { citizen: CitizenId(1), allocations } if allocations.len() == 1));
    let mut after = w.clone();
    act(&mut after, &v);
    assert_eq!(after.citizens[1].labor.allocations.len(), 1);
    assert_eq!(after.workplaces[0].workers[0].assignment.hours, 6);
    assert_eq!(after.workplaces[0].workers[0].assignment.effort, Effort::High);
    assert!(conservation_check(&after).is_ok());
    let r = set_labor(&w, &by(1), &vec![at(0, 1), at(0, 1)]).unwrap_err();
    assert_eq!((r.code, r.message.as_str()), (RejectCode::InvalidQuantity, "duplicate workplace"));
    let r = set_labor(&w, &by(1), &vec![at(9, 1)]).unwrap_err();
    assert_eq!((r.code, r.message.as_str()), (RejectCode::UnknownWorkplace, "no workplace w9"));
    let r = set_labor(&w, &by(2), &vec![at(0, 1)]).unwrap_err();
    assert_eq!((r.code, r.message.as_str()), (RejectCode::NotAssigned, "c2 has no position at w0"));
    let r = set_labor(&w, &by(1), &vec![at(0, 9)]).unwrap_err();
    assert_eq!((r.code, r.message.as_str()), (RejectCode::OverBudget, "9 h exceeds this cycle's budget of 8 h"));
    let r = set_labor(&w, &by(1), &vec![at(0, 1), at(1, 1), at(2, 1)]).unwrap_err();
    assert_eq!((r.code, r.message.as_str()), (RejectCode::TooManyWorkplaces, "at most 2 workplaces"));
    w.contracts = vec![job(0, 0, 1, None)];
    w.workplaces[0].workers[0].assignment.contract = Some(ContractId(0));
    w.citizens[1].labor.budget = 10;
    let r = set_labor(&w, &by(1), &vec![at(0, 9)]).unwrap_err();
    assert_eq!((r.code, r.message.as_str()), (RejectCode::OverContractHours, "the contract allows at most 8 h at w0"));
    // Setting no hours anywhere leaves the position with none.
    let v = set_labor(&after, &by(1), &vec![]).unwrap();
    act(&mut after, &v);
    assert_eq!(after.workplaces[0].workers[0].assignment.hours, 0);
}

#[test]
fn job_ads_are_posted_and_taken_place_by_place() {
    let mut w = founded_firm();
    let hourly = isms_core::world::Pay::Hourly(Money(100));
    let offer = |w: &World, e: &Envelope<()>, pay, hours, places, floor| {
        offer_employment(w, e, OrgId(0), WorkplaceId(0), pay, hours, None, 1, places, floor, Money(0))
    };
    assert_eq!(code(offer(&w, &by(1), hourly, 8, 2, None)), RejectCode::NotManager);
    let r = offer(&w, &by(0), isms_core::world::Pay::Hourly(Money(0)), 8, 2, None).unwrap_err();
    assert_eq!((r.code, r.message.as_str()), (RejectCode::InvalidPrice, "pay must be positive"));
    assert_eq!(code(offer(&w, &by(0), hourly, 9, 2, None)), RejectCode::InvalidQuantity);
    assert_eq!(code(offer(&w, &by(0), hourly, 8, 0, None)), RejectCode::InvalidTerm);
    let r = offer(&w, &by(0), hourly, 8, 2, Some(Money(200))).unwrap_err();
    assert_eq!(
        (r.code, r.message.as_str()),
        (RejectCode::BelowMinimumWage, "1.00 an hour is below the minimum wage of 2.00")
    );
    let id = w.next.offer;
    let v = offer(&w, &by(0), hourly, 8, 2, None).unwrap();
    assert_eq!(v.len(), 1);
    act(&mut w, &v);
    assert_eq!(w.offers.len(), 1);
    let k = w.next.contract;
    let v = accept_employment(&w, &by(1), id).unwrap();
    assert_eq!(v.len(), 2);
    assert!(matches!(v[0], Event::EmploymentAccepted { citizen: CitizenId(1), org: OrgId(0), workplace: WorkplaceId(0), .. }));
    assert!(matches!(v[1], Event::Assigned { workplace: WorkplaceId(0), citizen: CitizenId(1), contract: Some(_) }));
    act(&mut w, &v);
    assert!(w.contracts.iter().any(|c| c.id == k && c.status == ContractStatus::Active));
    assert_eq!(w.orgs[0].employees, vec![k]);
    assert!(employed(&w, CitizenId(1)));
    assert!(matches!(w.offers[0].body, OfferBody::Employment { places: 1, .. }));
    let r = accept_employment(&w, &by(1), id).unwrap_err();
    assert_eq!((r.code, r.message.as_str()), (RejectCode::AlreadyExists, "c1 already works at w0"));
    let v = accept_employment(&w, &by(2), id).unwrap();
    act(&mut w, &v);
    assert!(w.offers.is_empty());
    assert_eq!(w.orgs[0].employees.len(), 2);
    let r = accept_employment(&w, &by(2), isms_core::ids::OfferId(99)).unwrap_err();
    assert_eq!((r.code, r.message.as_str()), (RejectCode::UnknownOffer, "no offer f99"));
    assert!(conservation_check(&w).is_ok());
}

#[test]
fn an_unhoused_citizen_takes_a_dwelling_on_lease() {
    let mut w = fresh("freeport");
    joined(&mut w, 3);
    for d in 0..2 {
        w.dwellings.push(Dwelling {
            id: DwellingId(d),
            owner: Owner::Citizen(CitizenId(0)),
            occupant: None,
            lease: None,
            built_tick: 0,
        });
    }
    let ad = |id: u32, d: u32| Offer {
        id: OfferId(id),
        by: Party::Citizen(CitizenId(0)),
        created_tick: 0,
        body: OfferBody::Lease { asset: LeaseAsset::Dwelling(DwellingId(d)), rent_per_cycle: Money(2000), term_cycles: Some(3) },
    };
    w.offers = vec![ad(0, 0), ad(1, 1)];
    w.next.offer = OfferId(2);
    let r = accept_lease(&w, &by(0), OfferId(0)).unwrap_err();
    assert_eq!((r.code, r.message.as_str()), (RejectCode::SelfDeal, "cannot rent from yourself"));
    assert_eq!(code(accept_lease(&w, &by(1).on_behalf_of(OrgId(0)), OfferId(0))), RejectCode::NotAuthorized);
    let r = accept_lease(&w, &by(1), OfferId(7)).unwrap_err();
    assert_eq!((r.code, r.message.as_str()), (RejectCode::UnknownOffer, "no offer f7"));
    let k = w.next.contract;
    let v = accept_lease(&w, &by(1), OfferId(0)).unwrap();
    assert_eq!(v.len(), 2);
    assert!(matches!(
        v[0],
        Event::LeaseAccepted { owner: Party::Citizen(CitizenId(0)), tenant: Party::Citizen(CitizenId(1)), rent_per_cycle: Money(2000), term_cycles: Some(3), .. }
    ));
    assert!(matches!(v[1], Event::DwellingOccupied { dwelling: DwellingId(0), citizen: Some(CitizenId(1)) }));
    act(&mut w, &v);
    assert_eq!(w.dwellings[0].lease, Some(k));
    assert_eq!(w.dwellings[0].occupant, Some(CitizenId(1)));
    assert!(w.contracts.iter().any(|c| c.id == k && matches!(c.body, ContractBody::Lease { missed_cycles: 0, .. })));
    assert_eq!(w.offers.len(), 1);
    let r = accept_lease(&w, &by(1), OfferId(1)).unwrap_err();
    assert_eq!((r.code, r.message.as_str()), (RejectCode::AlreadyExists, "c1 is already housed"));
    assert!(conservation_check(&w).is_ok());
}

#[test]
fn only_a_cooperative_sets_its_share_rule() {
    let mut w = founded_firm();
    let r = set_share_rule(&w, &by(0), OrgId(0), ShareRule::Equal).unwrap_err();
    assert_eq!((r.code, r.message.as_str()), (RejectCode::NotInThisSociety, "Acme is not a cooperative"));
    apply(
        &mut w,
        &Event::OrgFounded {
            org: OrgId(1),
            kind: OrgKind::Cooperative,
            name: "Coop".to_string(),
            founder: Some(CitizenId(1)),
            ownership: isms_core::world::Ownership::Members,
            manager: Some(CitizenId(1)),
            fee_burned: Money::zero(),
        },
    );
    assert_eq!(code(set_share_rule(&w, &by(0), OrgId(1), ShareRule::Equal)), RejectCode::NotManager);
    let v = set_share_rule(&w, &by(1), OrgId(1), ShareRule::Equal).unwrap();
    assert!(matches!(v[..], [Event::ShareRuleSet { org: OrgId(1), rule: ShareRule::Equal }]));
}

#[test]
fn only_the_operator_ends_the_epoch() {
    let mut w = fresh("freeport");
    joined(&mut w, 1);
    let r = end_epoch(&w, &by(0)).unwrap_err();
    assert_eq!((r.code, r.message.as_str()), (RejectCode::NotAuthorized, "only the operator ends an epoch"));
    w.meta.tick = 49;
    let v = end_epoch(&w, &Envelope::system((), 49)).unwrap();
    // The last tick, 48, falls in cycle 2 of 24-tick cycles.
    assert!(matches!(v[..], [Event::EpochEnded { reason: isms_core::world::EpochEndReason::Operator, cycle: 2 }]));
    act(&mut w, &v);
    assert!(w.meta.epoch_ended.is_some());
}

#[test]
fn payday_reckons_each_contract_by_the_hours_worked() {
    let mut w = founded_firm();
    apply(&mut w, &Event::Seeded { holder: Holder::Org(OrgId(0)), asset: Asset::Money(Money(1000)) });
    w.workplaces[0].workers.push(Worker {
        citizen: CitizenId(1),
        assignment: Assignment { contract: Some(ContractId(0)), hours: 4, effort: Effort::Normal, cycle_tick_hours: 48 },
    });
    w.contracts = vec![job(0, 0, 1, None)];
    w.orgs[0].employees = vec![ContractId(0)];
    // 100 an hour for 48 tick-hours of a 24-tick cycle; a union floor of 300 raises it.
    let plain = vec![(ContractId(0), None, Money(0)), (ContractId(5), None, Money(9))];
    assert_eq!(accrued_by_contract(&w, &plain), vec![(ContractId(0), Money(200)), (ContractId(5), Money(0))]);
    let floored = vec![(ContractId(0), Some(Money(300)), Money(0))];
    assert_eq!(accrued_by_contract(&w, &floored), vec![(ContractId(0), Money(600))]);
    let mut b = TickBuilder::new(w, 23);
    cycle_end_8a_payday(&mut b, &plain);
    assert_eq!(b.events.len(), 1);
    assert!(matches!(
        b.events[0],
        Event::Paid { citizen: CitizenId(1), org: OrgId(0), contract: Some(ContractId(0)), amount: Money(200) }
    ));
    assert_eq!(b.world.orgs[0].treasury, Money(800));
}
