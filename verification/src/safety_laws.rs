//! What the power cap comes to in milliwatts, and when there is one.

use crate::config::SafetyConfig;
use crate::decode::Reading;
use crate::double;
use crate::double::{Double, Number};
use crate::double_laws;
use crate::i2c;
use crate::lifecycle;
use crate::lifecycle::{Condition, EventView};
use crate::reading_laws;
use crate::safety;
use crate::safety::{
    AttemptView, CapDecision, CapParams, CapState, DaemonView, EngageView, GuardView, Restore,
    Search, StartRefusal,
};
use vstd::prelude::*;

verus! {

// ---------------------------------------------------------------- the cap

/// `mw` is the fraction of so many milliwatts, rounded to a milliwatt: within a half of it, but
/// for what the last of 53 bits may be off.
pub open spec fn is_share(mw: nat, of: u32, fraction: Double) -> bool {
    0x8_0000 * (2 * double_laws::gap(
        (mw * double_laws::one()) as int,
        (of * double::weight(fraction)) as int,
    )) <= 0x8_0001 * double_laws::one()
}

/// `n` brought between `min` and `max`.
pub open spec fn is_brought_within(c: u32, n: nat, min: u32, max: u32) -> bool {
    &&& min <= c <= max
    &&& n < min ==> c == min
    &&& n > max ==> c == max
    &&& min <= n <= max ==> c == n
}

/// What is written is the fraction of the stock limit, brought between the constraints — whenever
/// that is below the limit in effect, and never otherwise. Nothing but that decides: neither how
/// far the limit in effect is from the stock limit nor on which side of it.
pub proof fn law_a_cap_is_the_share_of_the_stock_limit(
    default_mw: u32,
    current_mw: u32,
    min_mw: u32,
    max_mw: u32,
    fraction: Double,
) -> (c: u32)
    requires
        min_mw <= max_mw,
        fraction.wf(),
        double::weight(fraction) <= double_laws::one(),
    ensures
        exists|mw: nat|
            #[trigger] is_share(mw, default_mw, fraction) && is_brought_within(
                c,
                mw,
                min_mw,
                max_mw,
            ),
        safety::cap_decision(
            default_mw,
            current_mw,
            min_mw,
            max_mw,
            Number::Finite { negative: false, size: fraction },
        ) == CapDecision::Apply(c) <==> c < current_mw,
        safety::cap_decision(
            default_mw,
            current_mw,
            min_mw,
            max_mw,
            Number::Finite { negative: false, size: fraction },
        ) == CapDecision::Exhausted <==> c >= current_mw,
{
    let f = Number::Finite { negative: false, size: fraction };
    let n = safety::cap_target(default_mw, f);
    let c = safety::clamped(n, min_mw, max_mw);
    lemma_share(default_mw, fraction);
    assert(is_share(n, default_mw, fraction) && is_brought_within(c, n, min_mw, max_mw));
    c
}

proof fn lemma_share(default_mw: u32, fraction: Double)
    requires
        fraction.wf(),
        double::weight(fraction) <= double_laws::one(),
    ensures
        is_share(
            safety::cap_target(default_mw, Number::Finite { negative: false, size: fraction }),
            default_mw,
            fraction,
        ),
{
    let t = double_laws::one() as int;
    double_laws::lemma_one();
    double::lemma_whole(default_mw as nat);
    let x = double::whole(default_mw as nat)->size;
    let n = default_mw as int;
    let (wx, wf) = (double::weight(x) as int, double::weight(fraction) as int);
    let ww = wx * wf;
    let exact = n * wf;
    assert(ww == exact * t) by (nonlinear_arith)
        requires
            ww == wx * wf,
            wx == n * t,
            exact == n * wf,
    ;
    assert(exact <= n * t) by (nonlinear_arith)
        requires
            exact == n * wf,
            wf <= t,
            n >= 0,
    ;
    assert(n * t <= 0xffff_ffff * t) by (nonlinear_arith)
        requires
            n <= 0xffff_ffff,
            t >= 0,
    ;
    assert(ww <= n * (t * t)) by (nonlinear_arith)
        requires
            ww == exact * t,
            exact <= n * t,
            t >= 0,
    ;
    double_laws::law_products_are_close(x, fraction, default_mw as nat);
    let d = double::product(x, fraction)->0;
    let wd = double::weight(d) as int;
    // the common factor of the bound
    let g = double_laws::gap(exact, wd);
    assert(double_laws::gap(exact * t, wd * t) == g * t) by {
        assert(exact <= wd ==> exact * t <= wd * t && wd * t - exact * t == (wd - exact) * t)
            by (nonlinear_arith)
            requires
                t > 0,
        ;
        assert(exact > wd ==> exact * t > wd * t && exact * t - wd * t == (exact - wd) * t)
            by (nonlinear_arith)
            requires
                t > 0,
        ;
    }
    assert(0x20_0000_0000_0000 * g <= exact + 0x10_0000_0000_0000) by (nonlinear_arith)
        requires
            0x20_0000_0000_0000 * (g * t) <= exact * t + 0x10_0000_0000_0000 * t,
            t > 0,
    ;
    double_laws::law_rounding_off_is_close(d, u32::MAX as nat);
    let mw = safety::cap_target(default_mw, Number::Finite { negative: false, size: fraction });
    if mw == u32::MAX {
        assert((2 * (u32::MAX as nat) - 1) * t == 2 * (mw * t) - t) by (nonlinear_arith)
            requires
                mw == u32::MAX,
        ;
        assert(2 * double_laws::gap(mw * t, wd) <= t + 4 * g);
        assert(exact <= mw * t);
        assert(mw * t - exact >= 0);
        assert(2 * (mw * t) - t <= 2 * wd);
    }
    assert(0x8_0000 * (2 * double_laws::gap(mw * t, exact)) <= 0x8_0001 * t);
}

/// A fraction that is no number, or is below zero, caps as zero does: at the lowest limit that is
/// allowed.
pub proof fn law_a_senseless_fraction_caps_lowest(
    default_mw: u32,
    current_mw: u32,
    min_mw: u32,
    max_mw: u32,
    fraction: Number,
)
    requires
        min_mw <= max_mw,
        fraction is NotANumber || fraction is NegInf || (fraction matches Number::Finite {
            negative,
            size,
        } && negative && size.wf()),
    ensures
        safety::cap_decision(default_mw, current_mw, min_mw, max_mw, fraction) == (if min_mw
            < current_mw {
            CapDecision::Apply(min_mw)
        } else {
            CapDecision::Exhausted
        }),
{
    double::lemma_whole(default_mw as nat);
}

/// How a decision depends on the limit in effect: the same limit is written from every limit above
/// it, and from no other.
pub proof fn law_a_cap_is_written_from_every_limit_above_it(
    default_mw: u32,
    a: u32,
    b: u32,
    min_mw: u32,
    max_mw: u32,
    fraction: Number,
    c: u32,
)
    requires
        min_mw <= max_mw,
        safety::cap_decision(default_mw, a, min_mw, max_mw, fraction) == CapDecision::Apply(c),
    ensures
        c < b ==> safety::cap_decision(default_mw, b, min_mw, max_mw, fraction)
            == CapDecision::Apply(c),
        c >= b ==> safety::cap_decision(default_mw, b, min_mw, max_mw, fraction)
            == CapDecision::Exhausted,
{
}

// ---------------------------------------------------------------- gates

/// A reading may drive a cap only when no pin is above 20 A; and then it may when the total is
/// below 100 A and may not when it is above.
pub proof fn law_impossible_currents_never_cap(r: Reading)
    ensures
        ({
            let sum = r.pins@[0].milliamps + r.pins@[1].milliamps + r.pins@[2].milliamps
                + r.pins@[3].milliamps + r.pins@[4].milliamps + r.pins@[5].milliamps;
            let within = forall|i: int|
                0 <= i < 6 ==> (#[trigger] r.pins@[i]).milliamps <= 20_000;
            &&& safety::current_fits(r.pins@) ==> within && sum <= 100_000
            &&& within && sum < 100_000 ==> safety::current_fits(r.pins@)
        }),
{
    reading_laws::law_load_is_compared_as_added(r, 100_000);
}

/// An overload always caps, a lost pin or an imbalance when the config says so, and a loss of
/// telemetry never.
pub proof fn law_what_caps(cfg: SafetyConfig)
    ensures
        safety::triggers(Condition::Overload, cfg),
        safety::triggers(Condition::Disconnected, cfg) <==> cfg.trigger_disconnect,
        safety::triggers(Condition::Imbalance, cfg) <==> cfg.trigger_imbalance,
        !safety::triggers(Condition::TelemetryLost, cfg),
{
}

/// The conditions to cap for are exactly the trigger conditions that were freshly raised; a
/// repeat or a resolve never is one.
pub proof fn law_only_fresh_triggers_cap(events: Seq<EventView>, cfg: SafetyConfig, c: Condition)
    ensures
        safety::raised_triggers(events, cfg).contains(c) <==> safety::triggers(c, cfg) && exists|
            i: int,
        |
            0 <= i < events.len() && (#[trigger] events[i]) is Raised
                && events[i]->Raised_condition == c,
    decreases events.len(),
{
    let all = safety::raised_triggers(events, cfg);
    if events.len() > 0 {
        let front = events.drop_last();
        let before = safety::raised_triggers(front, cfg);
        law_only_fresh_triggers_cap(front, cfg, c);
        if before.contains(c) {
            let i = choose|i: int|
                0 <= i < front.len() && (#[trigger] front[i]) is Raised
                    && front[i]->Raised_condition == c;
            assert(events[i] is Raised && events[i]->Raised_condition == c);
            let k = choose|k: int| 0 <= k < before.len() && before[k] == c;
            assert(all[k] == c);
        }
        let last = events.last();
        if last is Raised && last->Raised_condition == c && safety::triggers(c, cfg) {
            assert(events[events.len() - 1] is Raised);
            assert(all == before.push(c));
            assert(all[all.len() - 1] == c);
        }
        if all.contains(c) && !before.contains(c) {
            let k = choose|k: int| 0 <= k < all.len() && all[k] == c;
            assert(last is Raised);
            assert(all == before.push(last->Raised_condition));
            if k < before.len() {
                assert(before[k] == c);
            }
            assert(events[events.len() - 1] is Raised);
        }
        if safety::triggers(c, cfg) && exists|i: int|
            0 <= i < events.len() && (#[trigger] events[i]) is Raised
                && events[i]->Raised_condition == c {
            let i = choose|i: int|
                0 <= i < events.len() && (#[trigger] events[i]) is Raised
                    && events[i]->Raised_condition == c;
            if i < front.len() {
                assert(front[i] is Raised && front[i]->Raised_condition == c);
            }
        }
    }
}

/// Limits count as the same when they are no more than two watts apart, whichever is the larger.
pub proof fn law_two_watts_are_the_tolerance(a: AttemptView, now: u32)
    ensures
        safety::took(a, Ok(now)) <==> double_laws::gap(now as int, a.target as int) <= 2_000,
{
}

// ---------------------------------------------------------------- which device

/// The search asks the devices one after the other, from the first to the last, stops at the first
/// whose bus id names the card, and gives up only when none of them does.
pub proof fn law_the_search_goes_through_the_devices(
    ids: Seq<Option<String>>,
    count: u32,
    want: Seq<char>,
)
    requires
        ids.len() <= count,
    ensures
        match safety::search_step(ids, count, want) {
            Search::Found(k) => {
                &&& k < ids.len()
                &&& ids[k as int] matches Some(id) && i2c::normal_pci(id@) == i2c::normal_pci(want)
                &&& forall|j: int|
                    0 <= j < k ==> !((#[trigger] ids[j]) matches Some(id) && i2c::normal_pci(id@)
                        == i2c::normal_pci(want))
            },
            Search::Ask(k) => k == ids.len() && k < count && forall|j: int|
                0 <= j < ids.len() ==> !((#[trigger] ids[j]) matches Some(id) && i2c::normal_pci(
                    id@,
                ) == i2c::normal_pci(want)),
            Search::NoMatch => ids.len() == count && forall|j: int|
                0 <= j < ids.len() ==> !((#[trigger] ids[j]) matches Some(id) && i2c::normal_pci(
                    id@,
                ) == i2c::normal_pci(want)),
        },
{
    lemma_first_named(ids, want);
}

proof fn lemma_first_named(ids: Seq<Option<String>>, want: Seq<char>)
    ensures
        match safety::first_named(ids, want) {
            Some(i) => {
                &&& 0 <= i < ids.len()
                &&& safety::names_card(ids[i], want)
                &&& forall|j: int| 0 <= j < i ==> !safety::names_card(#[trigger] ids[j], want)
            },
            None => forall|j: int|
                0 <= j < ids.len() ==> !safety::names_card(#[trigger] ids[j], want),
        },
    decreases ids.len(),
{
    if ids.len() > 0 {
        let front = ids.drop_last();
        lemma_first_named(front, want);
        assert forall|j: int| 0 <= j < front.len() implies front[j] == ids[j] by {}
        if safety::first_named(ids, want) is None {
            assert forall|j: int| 0 <= j < ids.len() implies !safety::names_card(
                #[trigger] ids[j],
                want,
            ) by {
                if j < front.len() {
                    assert(front[j] == ids[j]);
                }
            }
        } else if safety::first_named(front, want) is None {
            assert forall|j: int| 0 <= j < ids.len() - 1 implies !safety::names_card(
                #[trigger] ids[j],
                want,
            ) by {
                assert(front[j] == ids[j]);
            }
        } else {
            let i = safety::first_named(front, want)->0;
            assert forall|j: int| 0 <= j < i implies !safety::names_card(#[trigger] ids[j], want) by {
                assert(front[j] == ids[j]);
            }
        }
    }
}

// ---------------------------------------------------------------- engaging

/// What trying to cap does: nothing while one is engaged; else it writes exactly when the limit in
/// effect is known and the decision is to write, and otherwise it says why not.
pub proof fn law_what_trying_to_cap_does(
    g: GuardView,
    p: CapParams,
    cond: Condition,
    ts: Seq<char>,
    limit: Result<u32, String>,
)
    requires
        p.min_mw <= p.max_mw,
    ensures
        ({
            let out = safety::engage_step(g, p, cond, ts, limit);
            &&& out is Nothing <==> g.engaged
            &&& out is Write <==> !g.engaged && (limit matches Ok(cur) && safety::cap_decision(
                p.default_mw,
                cur,
                p.min_mw,
                p.max_mw,
                p.fraction,
            ) is Apply)
            &&& out matches EngageView::Write(a) ==> a.cond == cond && limit == Ok::<u32, String>(
                a.over,
            ) && safety::cap_decision(p.default_mw, a.over, p.min_mw, p.max_mw, p.fraction)
                == CapDecision::Apply(a.target)
            &&& out matches EngageView::Report(r) ==> r.message.ts == ts && r.message.kind
                == "raised"@
        }),
{
}

/// What a cap that took leaves behind: the guard is engaged with the limit that was read back and
/// the one that was in effect before, and the same two are recorded for the card. One that did not
/// take, or that came on top of another, leaves nothing behind and changes nothing.
pub proof fn law_what_a_cap_leaves_behind(
    g: GuardView,
    a: AttemptView,
    ts: Seq<char>,
    readback: Result<u32, String>,
)
    ensures
        ({
            let after = safety::confirmed(g, a, readback);
            let kept = safety::confirm_record(g, a, ts, readback);
            let took = !g.engaged && (readback matches Ok(now) && double_laws::gap(
                now as int,
                a.target as int,
            ) <= 2_000);
            &&& kept is Some <==> took
            &&& took ==> after.engaged && after.original_mw == a.over && readback == Ok::<
                u32,
                String,
            >(after.capped_mw) && after.pci == g.pci
            &&& !took ==> after == g
            &&& kept matches Some(st) ==> st.pci == g.pci && st.original_mw == a.over
                && st.capped_mw == after.capped_mw && st.ts == ts
            &&& safety::confirm_report(g, a, ts, readback) is None <==> g.engaged
        }),
{
}

/// What starting finds: a cap recorded for this card — whatever the width of the domain and the
/// case of the letters — is taken over as recorded; without one the guard is free and the limit in
/// effect counts as the original.
pub proof fn law_what_starting_finds(pci: Seq<char>, current_mw: u32, st: Option<CapState>)
    ensures
        ({
            let g = safety::initial_guard(pci, current_mw, st);
            let own = st matches Some(s) && i2c::normal_pci(s.pci@) == i2c::normal_pci(pci);
            &&& g.pci == pci
            &&& g.engaged <==> own
            &&& own ==> g.original_mw == st->0.original_mw && g.capped_mw == st->0.capped_mw
            &&& !own ==> g.original_mw == current_mw
        }),
{
}

/// A cap that took is taken over after a restart as it was, and restoring it gives back the limit
/// that was in effect before it.
pub proof fn law_a_cap_survives_a_restart(
    g: GuardView,
    a: AttemptView,
    ts: Seq<char>,
    readback: Result<u32, String>,
    st: CapState,
    current_mw: u32,
)
    requires
        safety::confirm_record(g, a, ts, readback) == Some(st@),
    ensures
        safety::initial_guard(g.pci, current_mw, Some(st)) == safety::confirmed(g, a, readback),
        st.original_mw == a.over,
{
}

/// Which constraints are acted on: a range that holds the stock limit, which is between 50 W and
/// 2 kW.
pub proof fn law_which_constraints_make_sense(default_mw: u32, min_mw: u32, max_mw: u32)
    ensures
        safety::limits_fit(default_mw, min_mw, max_mw) <==> min_mw <= default_mw && default_mw
            <= max_mw && min_mw != max_mw && default_mw >= 50_000 && default_mw <= 2_000_000,
{
}

/// Misses are counted from a usable sample on, and the bus is looked for again from the tenth in a
/// row on, when it was found rather than named.
pub proof fn law_misses_are_counted(
    d: DaemonView,
    sample: Result<Reading, String>,
    now: crate::clock::Instant,
)
    ensures
        ({
            let after = safety::sampled(d, sample, now);
            &&& safety::usable(sample) ==> after.misses == 0 && !safety::lost_the_bus(after)
            &&& !safety::usable(sample) && d.misses < u32::MAX ==> after.misses == d.misses + 1
            &&& safety::lost_the_bus(after) <==> after.auto && after.misses >= 10
            &&& safety::asked_for_the_bus(after).misses == (if after.auto && after.misses >= 10 {
                0
            } else {
                after.misses
            })
            &&& after.guard == d.guard && after.params == d.params && after.triggers == d.triggers
        }),
{
}

/// A recorded cap is undone, by writing the limit from before it, exactly while it is in effect to
/// two watts; a limit that someone else set is left alone.
pub proof fn law_what_restoring_does(original_mw: u32, capped_mw: u32, current_mw: u32)
    ensures
        safety::restored(original_mw, capped_mw, current_mw) == Restore::Write(original_mw)
            <==> capped_mw <= current_mw + 2_000 && current_mw <= capped_mw + 2_000,
        safety::restored(original_mw, capped_mw, current_mw) == Restore::LeaveAlone <==> capped_mw
            > current_mw + 2_000 || current_mw > capped_mw + 2_000,
{
}

/// Whatever is reported pages urgently as a raise of the power safety, with the time it happened,
/// and tells of the condition and the card.
pub proof fn law_reports_page_urgently(
    g: GuardView,
    cond: Condition,
    ts: Seq<char>,
    cur: u32,
    now: u32,
    e: Seq<char>,
)
    ensures
        pages(safety::unreadable(g, cond, ts, e).message, g, cond, ts),
        pages(safety::exhausted(g, cond, ts, cur).message, g, cond, ts),
        pages(safety::capped(g, cond, ts, cur, now).message, g, cond, ts),
        pages(safety::unstuck(g, cond, ts, cur, now).message, g, cond, ts),
        pages(safety::unwritable(g, cond, ts, e).message, g, cond, ts),
{
    let w = lifecycle::condition_label(cond) + " on "@ + g.pci;
    let n = w.len() as int;
    let a = safety::unreadable(g, cond, ts, e).message;
    let b = safety::exhausted(g, cond, ts, cur).message;
    let c = safety::capped(g, cond, ts, cur, now).message;
    let d = safety::unstuck(g, cond, ts, cur, now).message;
    let f = safety::unwritable(g, cond, ts, e).message;
    let title = "astral-watch SAFETY: "@;
    let k = title.len() as int;
    assert(a.body.take(n) =~= w && a.title.take(k) =~= title);
    assert(b.body.take(n) =~= w && b.title.take(k) =~= title);
    assert(c.body.take(n) =~= w && c.title.take(k) =~= title);
    assert(d.body.take(n) =~= w && d.title.take(k) =~= title);
    assert(f.body.take(n) =~= w && f.title.take(k) =~= title);
    lemma_pages(a, g, cond, ts, w);
    lemma_pages(b, g, cond, ts, w);
    lemma_pages(c, g, cond, ts, w);
    lemma_pages(d, g, cond, ts, w);
    lemma_pages(f, g, cond, ts, w);
}

/// A message that pages of a condition on a card.
pub open spec fn pages(
    m: crate::notify::MessageView,
    g: GuardView,
    cond: Condition,
    ts: Seq<char>,
) -> bool {
    &&& m.kind == "raised"@
    &&& m.condition == "power_safety"@
    &&& m.priority == crate::notify::Priority::Urgent
    &&& m.ts == ts
    &&& "astral-watch SAFETY: "@.is_prefix_of(m.title)
    &&& (lifecycle::condition_label(cond) + " on "@ + g.pci).is_prefix_of(m.body)
}

proof fn lemma_pages(
    m: crate::notify::MessageView,
    g: GuardView,
    cond: Condition,
    ts: Seq<char>,
    w: Seq<char>,
)
    requires
        w == lifecycle::condition_label(cond) + " on "@ + g.pci,
        m.kind == "raised"@,
        m.condition == "power_safety"@,
        m.priority == crate::notify::Priority::Urgent,
        m.ts == ts,
        m.title.len() >= "astral-watch SAFETY: "@.len(),
        m.title.take("astral-watch SAFETY: "@.len() as int) == "astral-watch SAFETY: "@,
        m.body.len() >= w.len(),
        m.body.take(w.len() as int) == w,
    ensures
        pages(m, g, cond, ts),
{
    assert(m.title.subrange(0, "astral-watch SAFETY: "@.len() as int) =~= m.title.take(
        "astral-watch SAFETY: "@.len() as int,
    ));
    assert(m.body.subrange(0, w.len() as int) =~= m.body.take(w.len() as int));
}

/// Power is told in whole watts.
pub proof fn law_power_is_told_in_watts(mw: u32)
    ensures
        crate::text_laws::worth(safety::watts(mw), 10) * 1000 <= mw < (crate::text_laws::worth(
            safety::watts(mw),
            10,
        ) + 1) * 1000,
{
    crate::text_laws::law_decimals_read_back(mw as nat / 1000);
}

/// The state of a cap is kept in the daemon's own directory.
pub proof fn law_the_state_is_kept_in_its_directory()
    ensures
        safety::STATE_FILE@ == safety::STATE_DIR@ + "/cap-state.json"@,
{
    reveal_strlit("/run/astral-watch-safety");
    reveal_strlit("/run/astral-watch-safety/cap-state.json");
    reveal_strlit("/cap-state.json");
    assert(safety::STATE_FILE@ =~= safety::STATE_DIR@ + "/cap-state.json"@);
}

/// The daemon starts only when it is armed and knows its card; that it is not armed is said
/// first.
pub proof fn law_when_the_daemon_starts(enabled: bool, known: bool)
    ensures
        safety::start_refused(enabled, known) is None <==> enabled && known,
        !enabled ==> safety::start_refused(enabled, known) == Some(StartRefusal::Disarmed),
        enabled && !known ==> safety::start_refused(enabled, known) == Some(
            StartRefusal::UnknownCard,
        ),
{
}

/// A usable sample ends a streak of misses and any other makes it one longer.
pub proof fn law_streaks_of_misses(misses: u32)
    ensures
        safety::misses_after(true, misses) == 0,
        misses < u32::MAX ==> safety::misses_after(false, misses) == misses + 1,
        safety::misses_after(false, u32::MAX) == u32::MAX,
{
}

} // verus!
