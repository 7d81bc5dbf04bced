//! Opt-in automatic power cap.
//!
//! The **only** GPU-state mutation, and only when explicitly armed. On a confirmed, sustained
//! connector overload (or a disconnected pin under load) the GPU's power limit is reduced,
//! lowering aggregate — and therefore per-pin — current to slow a connector melt. It is
//! harm-*minimization*, not a cure: a board-level cap cannot rebalance a single high-resistance
//! pin, only reduce how much current that pin carries.
//!
//!   - **Latched.** One decisive cap, held until an operator restores the limit or the machine
//!     reboots. Auto-recovery is unsafe: the cap *causes* the overload reading to clear, so
//!     releasing on "clear" would flap the limit and falsely report all-clear on a still-damaged
//!     connector.
//!   - **Never-raise.** It only ever *lowers* the limit; if it can't reduce further it does not
//!     write and loudly reports the lever is exhausted.
//!   - **Fail-safe.** On exit while a cap is engaged it *holds* the cap; the state is persisted so
//!     a crash and restart adopts the live cap instead of ratcheting down.
//!   - **Right GPU, confirmed.** The card is matched to the monitored i2c bus by PCI id — never
//!     by position — and the limit is read back after setting to confirm it took.

use crate::alert;
use crate::alert::{evaluate_with, Thresholds};
use crate::clock::Instant;
use crate::config::{AlertPolicy, SafetyConfig};
use crate::decode;
use crate::decode::{Pin, Reading};
use crate::double;
use crate::double::Number;
use crate::i2c;
use crate::i2c::{norm_pci, REDETECT_AFTER};
use crate::lifecycle;
use crate::lifecycle::{conditions, Condition, Event, EventView, Lifecycle, Phase};
use crate::notify::{Message, MessageView, Priority};
use crate::text;
use crate::text::{decimal_text, same_text};
use vstd::prelude::*;

verus! {

/// Directory for the cap state file, cleared on reboot — the same lifetime as the volatile power
/// limit, so a surviving state file always means a still-live cap.
pub const STATE_DIR: &'static str = "/run/astral-watch-safety";

/// The cap state file.
pub const STATE_FILE: &'static str = "/run/astral-watch-safety/cap-state.json";

/// A pin physically can't carry more than this (20 A, in milliamps) before failing — a reading
/// above it is a torn i2c read, not a real overload.
pub const MAX_PIN_MA: u16 = 20_000;

/// The connector can't carry more than this in total (100 A, in milliamps).
pub const MAX_TOTAL_MA: u64 = 100_000;

/// Tolerance (mW) when comparing the in-effect limit to what was set — the driver may round, and
/// another power-limit manager changing it by more than this means "someone else took over".
pub const LIMIT_TOL_MW: u32 = 2_000;

// ---------------------------------------------------------------- the cap

/// What an attempted cap resolves to.
#[derive(Debug, Clone, Copy, PartialEq, Eq, Structural)]
pub enum CapDecision {
    /// Write this limit (mW).
    Apply(u32),
    /// The lever is exhausted — the safe target is not below the limit already in effect.
    Exhausted,
}

/// The fraction of the stock limit, rounded to a milliwatt, halves up; what is not a number or
/// below zero counts as zero.
pub open spec fn cap_target(default_mw: u32, fraction: Number) -> nat {
    double::rounded_off(
        double::times(double::whole(default_mw as nat), fraction),
        u32::MAX as nat,
    )
}

/// `n` brought into a range.
pub open spec fn clamped(n: nat, min: u32, max: u32) -> u32 {
    if n < min {
        min
    } else if n > max {
        max
    } else {
        n as u32
    }
}

/// The cap: a fraction of the stock limit, clamped to the constraints, and never at or above the
/// limit already in effect.
pub open spec fn cap_decision(
    default_mw: u32,
    current_mw: u32,
    min_mw: u32,
    max_mw: u32,
    fraction: Number,
) -> CapDecision {
    let target = clamped(cap_target(default_mw, fraction), min_mw, max_mw);
    if target < current_mw {
        CapDecision::Apply(target)
    } else {
        CapDecision::Exhausted
    }
}

/// Resolve the cap: a fraction of the stock limit, clamped to the constraints, and — the
/// critical invariant — never above the limit already in effect, so a fault can never *raise*
/// power (e.g. on an already-undervolted card).
pub fn compute_cap_mw(
    default_mw: u32,
    current_mw: u32,
    min_mw: u32,
    max_mw: u32,
    fraction: Number,
) -> (d: CapDecision)
    requires
        min_mw <= max_mw,
    ensures
        d == cap_decision(default_mw, current_mw, min_mw, max_mw, fraction),
{
    let target: u32 = Number::whole(default_mw as u128).times(fraction).rounded_off(
        u32::MAX as u64,
    ) as u32;
    let target: u32 = if target < min_mw {
        min_mw
    } else if target > max_mw {
        max_mw
    } else {
        target
    };
    if target < current_mw {
        CapDecision::Apply(target)
    } else {
        CapDecision::Exhausted
    }
}

/// A cap is always strictly below the limit in effect and within the constraints: a fault can
/// never raise power.
pub proof fn law_a_cap_never_raises(
    default_mw: u32,
    current_mw: u32,
    min_mw: u32,
    max_mw: u32,
    fraction: Number,
    t: u32,
)
    requires
        min_mw <= max_mw,
        cap_decision(default_mw, current_mw, min_mw, max_mw, fraction) == CapDecision::Apply(t),
    ensures
        t < current_mw,
        min_mw <= t <= max_mw,
{
}

/// Capping does not ratchet: with the cap in effect, the same inputs cap no further.
pub proof fn law_a_cap_does_not_ratchet(
    default_mw: u32,
    current_mw: u32,
    min_mw: u32,
    max_mw: u32,
    fraction: Number,
    t: u32,
)
    requires
        min_mw <= max_mw,
        cap_decision(default_mw, current_mw, min_mw, max_mw, fraction) == CapDecision::Apply(t),
    ensures
        cap_decision(default_mw, t, min_mw, max_mw, fraction) == CapDecision::Exhausted,
{
}

// ---------------------------------------------------------------- gates

/// Whether every pin and the total are within physical bounds.
pub open spec fn current_fits(pins: Seq<Pin>) -> bool {
    &&& forall|i: int| 0 <= i < pins.len() ==> (#[trigger] pins[i]).milliamps <= MAX_PIN_MA
    &&& double::at_most(decode::total_amps(pins), double::thousandths(MAX_TOTAL_MA as nat))
}

/// Stricter, action-gating plausibility: every pin and the total within physical bounds. A
/// torn read that slips past the voltage-only [`Reading::plausible`] must not drive a cap.
pub fn current_plausible(r: &Reading) -> (ok: bool)
    ensures
        ok == current_fits(r.pins@),
{
    let mut i: usize = 0;
    while i < 6
        invariant
            i <= 6,
            forall|j: int| 0 <= j < i ==> (#[trigger] r.pins@[j]).milliamps <= MAX_PIN_MA,
        decreases 6 - i,
    {
        if r.pins[i].milliamps > MAX_PIN_MA {
            assert(r.pins@[i as int].milliamps > MAX_PIN_MA);
            return false;
        }
        i = i + 1;
    }
    r.total_amps().at_most(Number::thousandths(MAX_TOTAL_MA))
}

/// Whether a confirmed condition caps the power.
pub open spec fn triggers(c: Condition, cfg: SafetyConfig) -> bool {
    match c {
        Condition::Overload => true,
        Condition::Disconnected => cfg.trigger_disconnect,
        Condition::Imbalance => cfg.trigger_imbalance,
        Condition::TelemetryLost => false,
    }
}

/// Whether a confirmed condition caps the power.
pub fn is_trigger(c: Condition, cfg: &SafetyConfig) -> (r: bool)
    ensures
        r == triggers(c, *cfg),
{
    match c {
        Condition::Overload => true,
        Condition::Disconnected => cfg.trigger_disconnect,
        Condition::Imbalance => cfg.trigger_imbalance,
        Condition::TelemetryLost => false,
    }
}

/// Whether two limits differ by no more than the tolerance.
pub open spec fn close(a: u32, b: u32, tol: u32) -> bool {
    a - b <= tol && b - a <= tol
}

/// Whether two limits differ by no more than the tolerance.
pub fn within(a: u32, b: u32, tol: u32) -> (r: bool)
    ensures
        r == close(a, b, tol),
{
    if a >= b {
        a - b <= tol
    } else {
        b - a <= tol
    }
}

// ---------------------------------------------------------------- which device

/// What the search for the monitored card's device does next.
#[derive(Debug, Clone, Copy, PartialEq, Eq, Structural)]
pub enum Search {
    /// Ask the device with this index for its bus id.
    Ask(u32),
    /// The device with this index is the card.
    Found(u32),
    /// No device is the card.
    NoMatch,
}

/// Whether a device's bus id names the wanted card.
pub open spec fn names_card(id: Option<String>, want: Seq<char>) -> bool {
    id is Some && i2c::normal_pci(id->0@) == i2c::normal_pci(want)
}

/// The first device that names the wanted card.
pub open spec fn first_named(ids: Seq<Option<String>>, want: Seq<char>) -> Option<int>
    decreases ids.len(),
{
    if ids.len() == 0 {
        None
    } else {
        match first_named(ids.drop_last(), want) {
            Some(i) => Some(i),
            None => if names_card(ids.last(), want) {
                Some(ids.len() - 1)
            } else {
                None
            },
        }
    }
}

/// What the search does after the first devices answered `ids`.
pub open spec fn search_step(ids: Seq<Option<String>>, count: u32, want: Seq<char>) -> Search {
    match first_named(ids, want) {
        Some(i) => Search::Found(i as u32),
        None => if ids.len() < count {
            Search::Ask(ids.len() as u32)
        } else {
            Search::NoMatch
        },
    }
}

/// Find the device of the monitored card by PCI id — enumerate and match on the device's own bus
/// id (normalized), never falling back to the first (enumeration order is not PCI order, so the
/// first could be a healthy sibling on a multi-GPU box). `ids` holds the bus ids of the first
/// devices so far, `None` for one that gave none.
pub fn find_device(ids: &Vec<Option<String>>, count: u32, want: &str) -> (s: Search)
    requires
        ids.len() <= count,
    ensures
        s == search_step(ids@, count, want@),
{
    let wanted = norm_pci(want);
    let mut found: Option<u32> = None;
    let mut i: usize = 0;
    while i < ids.len()
        invariant
            i <= ids.len() <= count,
            wanted@ == i2c::normal_pci(want@),
            match found {
                Some(k) => first_named(ids@.take(i as int), want@) == Some(k as int),
                None => first_named(ids@.take(i as int), want@) is None,
            },
        decreases ids.len() - i,
    {
        assert(ids@.take(i + 1).drop_last() =~= ids@.take(i as int));
        if found.is_none() {
            if let Some(id) = &ids[i] {
                if same_text(norm_pci(id.as_str()).as_str(), wanted.as_str()) {
                    found = Some(i as u32);
                }
            }
        }
        i = i + 1;
    }
    assert(ids@.take(ids@.len() as int) =~= ids@);
    match found {
        Some(k) => Search::Found(k),
        None => {
            if ids.len() < count as usize {
                Search::Ask(ids.len() as u32)
            } else {
                Search::NoMatch
            }
        },
    }
}

/// The device that is acted on is the monitored card: its bus id and the card's have the same
/// normal form.
pub proof fn law_only_the_monitored_card_is_found(
    ids: Seq<Option<String>>,
    count: u32,
    want: Seq<char>,
    k: u32,
)
    requires
        ids.len() <= count,
        search_step(ids, count, want) == Search::Found(k),
    ensures
        k < ids.len(),
        names_card(ids[k as int], want),
{
    lemma_first_named(ids, want);
}

proof fn lemma_first_named(ids: Seq<Option<String>>, want: Seq<char>)
    ensures
        first_named(ids, want) matches Some(i) ==> 0 <= i < ids.len() && names_card(ids[i], want),
    decreases ids.len(),
{
    if ids.len() > 0 {
        lemma_first_named(ids.drop_last(), want);
    }
}

/// Why no device is acted on.
pub fn no_match_text(want: &str) -> (s: String)
    ensures
        s@ == "no NVML device matches the monitored card "@ + want@
            + "; refusing to act (never caps device 0)"@,
{
    let mut s = "no NVML device matches the monitored card ".to_owned();
    s.append(want);
    s.append("; refusing to act (never caps device 0)");
    s
}

// ---------------------------------------------------------------- the engaged cap

/// Persisted across a crash and same-boot restart so the daemon adopts a live cap (and keeps the
/// *true* original to restore) instead of reading the already-lowered limit as "original".
#[derive(Debug, PartialEq, Eq)]
pub struct CapState {
    pub pci: String,
    pub original_mw: u32,
    pub capped_mw: u32,
    pub ts: String,
}

/// What a [`CapState`] holds.
#[verifier::ext_equal]
pub struct CapStateView {
    pub pci: Seq<char>,
    pub original_mw: u32,
    pub capped_mw: u32,
    pub ts: Seq<char>,
}

impl View for CapState {
    type V = CapStateView;

    open spec fn view(&self) -> CapStateView {
        CapStateView {
            pci: self.pci@,
            original_mw: self.original_mw,
            capped_mw: self.capped_mw,
            ts: self.ts@,
        }
    }
}

/// The card and the cap it is under. On exit an engaged cap is held, never restored — a
/// confirmed overload occurred.
#[derive(Debug, PartialEq, Eq)]
pub struct CapGuard {
    pub pci: String,
    pub original_mw: u32,
    pub capped_mw: u32,
    pub engaged: bool,
}

/// What a [`CapGuard`] holds.
#[verifier::ext_equal]
pub struct GuardView {
    pub pci: Seq<char>,
    pub original_mw: u32,
    pub capped_mw: u32,
    pub engaged: bool,
}

impl View for CapGuard {
    type V = GuardView;

    open spec fn view(&self) -> GuardView {
        GuardView {
            pci: self.pci@,
            original_mw: self.original_mw,
            capped_mw: self.capped_mw,
            engaged: self.engaged,
        }
    }
}

/// The fixed inputs to the cap computation, read once at startup.
#[derive(Debug, Clone, Copy, PartialEq, Eq, Structural)]
pub struct CapParams {
    pub default_mw: u32,
    pub min_mw: u32,
    pub max_mw: u32,
    pub fraction: Number,
}

impl CapParams {
    /// The cap from a limit in effect.
    pub fn decide(&self, current_mw: u32) -> (d: CapDecision)
        requires
            self.min_mw <= self.max_mw,
        ensures
            d == cap_decision(
                self.default_mw,
                current_mw,
                self.min_mw,
                self.max_mw,
                self.fraction,
            ),
    {
        compute_cap_mw(self.default_mw, current_mw, self.min_mw, self.max_mw, self.fraction)
    }
}

/// Milliwatts in whole watts.
pub open spec fn watts(mw: u32) -> Seq<char> {
    text::decimal(mw as nat / 1000)
}

fn watts_text(mw: u32) -> (s: String)
    ensures
        s@ == watts(mw),
{
    decimal_text(mw as u128 / 1000)
}

/// A loud, urgent notification about a cap action.
pub open spec fn audit_view(what: Seq<char>, body: Seq<char>, ts: Seq<char>) -> MessageView {
    MessageView {
        kind: "raised"@,
        condition: "power_safety"@,
        title: "astral-watch SAFETY: "@ + what,
        body,
        priority: Priority::Urgent,
        ts,
    }
}

/// A loud, urgent audit notification for a cap action (its own channel — the daemon never
/// emits a lifecycle "resolved", which on a capped fault would be a false all-clear).
pub fn audit(what: &str, body: String, ts: &str) -> (m: Message)
    ensures
        m@ == audit_view(what@, body@, ts@),
{
    let mut title = "astral-watch SAFETY: ".to_owned();
    title.append(what);
    Message {
        kind: "raised",
        condition: "power_safety",
        title,
        body,
        priority: Priority::Urgent,
        ts: ts.to_owned(),
    }
}

/// What is said about a cap action: a line for the journal and a notification.
#[derive(Debug)]
pub struct Report {
    pub line: String,
    pub message: Message,
}

/// What a [`Report`] says.
#[verifier::ext_equal]
pub struct ReportView {
    pub line: Seq<char>,
    pub message: MessageView,
}

impl View for Report {
    type V = ReportView;

    open spec fn view(&self) -> ReportView {
        ReportView { line: self.line@, message: self.message@ }
    }
}

/// Which condition on which card, as every report begins.
pub open spec fn whereabouts(cond: Condition, pci: Seq<char>) -> Seq<char> {
    lifecycle::condition_label(cond) + " on "@ + pci
}

/// The report of a limit that could not be read.
pub open spec fn unreadable(g: GuardView, cond: Condition, ts: Seq<char>, e: Seq<char>) -> ReportView {
    ReportView {
        line: "# safety: cannot read the current power limit to cap: "@ + e,
        message: audit_view(
            "cap failed"@,
            whereabouts(cond, g.pci) + " but reading the power limit failed: "@ + e,
            ts,
        ),
    }
}

/// The report of a lever that is exhausted.
pub open spec fn exhausted(g: GuardView, cond: Condition, ts: Seq<char>, cur: u32) -> ReportView {
    ReportView {
        line: "# safety: cannot reduce power further on "@ + g.pci + " (limit "@ + watts(cur)
            + "W already at/below the safe target) — likely a hardware fault; inspect the connector"@,
        message: audit_view(
            "cannot reduce power"@,
            whereabouts(cond, g.pci) + " but the power limit ("@ + watts(cur)
                + "W) is already at/below the safe target — the cap lever is exhausted; this is likely a true hardware fault needing physical intervention"@,
            ts,
        ),
    }
}

/// The report of a cap that took.
pub open spec fn capped(
    g: GuardView,
    cond: Condition,
    ts: Seq<char>,
    cur: u32,
    now: u32,
) -> ReportView {
    ReportView {
        line: "# safety: CAPPED "@ + g.pci + " "@ + watts(cur) + "W -> "@ + watts(now) + "W ("@
            + lifecycle::condition_label(cond) + ")"@,
        message: audit_view(
            "power capped"@,
            whereabouts(cond, g.pci) + " — capped "@ + watts(cur) + "W -> "@ + watts(now)
                + "W to cut connector current. The fault is NOT cleared; inspect the connector. Restore: `astral-watch restore-power-limit`"@,
            ts,
        ),
    }
}

/// The report of a cap that did not take.
pub open spec fn unstuck(
    g: GuardView,
    cond: Condition,
    ts: Seq<char>,
    target: u32,
    now: u32,
) -> ReportView {
    ReportView {
        line: "# safety: cap DID NOT STICK on "@ + g.pci + " (asked "@ + watts(target)
            + "W, limit now "@ + watts(now) + "W) — NOT protected"@,
        message: audit_view(
            "cap failed"@,
            whereabouts(cond, g.pci) + " but the power limit did not change (asked "@ + watts(
                target,
            ) + "W, still "@ + watts(now)
                + "W) — the GPU is NOT protected; physical inspection required"@,
            ts,
        ),
    }
}

/// The report of a limit that could not be written.
pub open spec fn unwritable(g: GuardView, cond: Condition, ts: Seq<char>, e: Seq<char>) -> ReportView {
    ReportView {
        line: "# safety: set_power_management_limit failed: "@ + e,
        message: audit_view(
            "cap failed"@,
            whereabouts(cond, g.pci) + " but the NVML power-limit write failed: "@ + e,
            ts,
        ),
    }
}

fn whereabouts_text(cond: Condition, pci: &str) -> (s: String)
    ensures
        s@ == whereabouts(cond, pci@),
{
    let mut s = cond.label().to_owned();
    s.append(" on ");
    s.append(pci);
    s
}

/// A limit that is to be written, and what it was decided on. Only [`Daemon::try_engage`] makes
/// one, and [`Daemon::confirm`] uses it up.
#[derive(Debug)]
pub struct Attempt {
    cond: Condition,
    over: u32,
    target: u32,
}

/// What an [`Attempt`] holds.
pub struct AttemptView {
    /// The condition the cap is for.
    pub cond: Condition,
    /// The limit in effect that it was decided on.
    pub over: u32,
    /// The limit to write.
    pub target: u32,
}

impl View for Attempt {
    type V = AttemptView;

    closed spec fn view(&self) -> AttemptView {
        AttemptView { cond: self.cond, over: self.over, target: self.target }
    }
}

impl Attempt {
    /// An attempt always lowers the limit.
    #[verifier::type_invariant]
    spec fn lowers(self) -> bool {
        self.target < self.over
    }

    /// The limit to write: strictly below the one that was in effect.
    pub fn target(&self) -> (t: u32)
        ensures
            t == self@.target,
            t < self@.over,
    {
        proof {
            use_type_invariant(self);
        }
        self.target
    }
}

/// What an attempt to cap does with the limit in effect.
#[derive(Debug)]
pub enum Engage {
    /// A cap is engaged already: nothing is written and nothing is said.
    Nothing,
    /// Write this limit, read it back, and go on with [`Daemon::confirm`].
    Write(Attempt),
    /// Nothing can be done; say so.
    Report(Report),
}

/// What an [`Engage`] asks for.
pub enum EngageView {
    Nothing,
    Write(AttemptView),
    Report(ReportView),
}

impl View for Engage {
    type V = EngageView;

    open spec fn view(&self) -> EngageView {
        match *self {
            Engage::Nothing => EngageView::Nothing,
            Engage::Write(a) => EngageView::Write(a@),
            Engage::Report(r) => EngageView::Report(r@),
        }
    }
}

/// Try to engage a cap for a confirmed trigger condition, given the limit in effect. The cap is
/// latched: with one engaged there is nothing to do.
pub open spec fn engage_step(
    g: GuardView,
    p: CapParams,
    cond: Condition,
    ts: Seq<char>,
    limit: Result<u32, String>,
) -> EngageView {
    if g.engaged {
        EngageView::Nothing
    } else {
        match limit {
            Err(e) => EngageView::Report(unreadable(g, cond, ts, e@)),
            Ok(cur) => match cap_decision(p.default_mw, cur, p.min_mw, p.max_mw, p.fraction) {
                CapDecision::Apply(target) => EngageView::Write(
                    AttemptView { cond, over: cur, target },
                ),
                CapDecision::Exhausted => EngageView::Report(exhausted(g, cond, ts, cur)),
            },
        }
    }
}

/// Whether a read-back confirms what was asked for.
pub open spec fn took(a: AttemptView, readback: Result<u32, String>) -> bool {
    readback is Ok && close(readback->Ok_0, a.target, LIMIT_TOL_MW)
}

/// The guard after an attempt was written and read back; an engaged cap stays as it is.
pub open spec fn confirmed(
    g: GuardView,
    a: AttemptView,
    readback: Result<u32, String>,
) -> GuardView {
    if !g.engaged && took(a, readback) {
        GuardView { original_mw: a.over, capped_mw: readback->Ok_0, engaged: true, ..g }
    } else {
        g
    }
}

/// What is said after an attempt was written and read back; nothing of an engaged cap.
pub open spec fn confirm_report(
    g: GuardView,
    a: AttemptView,
    ts: Seq<char>,
    readback: Result<u32, String>,
) -> Option<ReportView> {
    if g.engaged {
        None
    } else {
        Some(
            match readback {
                Ok(now) => if took(a, readback) {
                    capped(g, a.cond, ts, a.over, now)
                } else {
                    unstuck(g, a.cond, ts, a.target, now)
                },
                Err(e) => unwritable(g, a.cond, ts, e@),
            },
        )
    }
}

/// What is persisted after an attempt was written and read back: the cap, when it took.
pub open spec fn confirm_record(
    g: GuardView,
    a: AttemptView,
    ts: Seq<char>,
    readback: Result<u32, String>,
) -> Option<CapStateView> {
    if !g.engaged && took(a, readback) {
        Some(
            CapStateView {
                pci: g.pci,
                original_mw: a.over,
                capped_mw: readback->Ok_0,
                ts,
            },
        )
    } else {
        None
    }
}

impl CapGuard {
    fn report_unreadable(&self, cond: Condition, ts: &str, e: &str) -> (r: Report)
        ensures
            r@ == unreadable(self@, cond, ts@, e@),
    {
        let mut line = "# safety: cannot read the current power limit to cap: ".to_owned();
        line.append(e);
        let mut body = whereabouts_text(cond, self.pci.as_str());
        body.append(" but reading the power limit failed: ");
        body.append(e);
        Report { line, message: audit("cap failed", body, ts) }
    }

    fn report_exhausted(&self, cond: Condition, ts: &str, cur: u32) -> (r: Report)
        ensures
            r@ == exhausted(self@, cond, ts@, cur),
    {
        let mut line = "# safety: cannot reduce power further on ".to_owned();
        line.append(self.pci.as_str());
        line.append(" (limit ");
        line.append(watts_text(cur).as_str());
        line.append("W already at/below the safe target) — likely a hardware fault; inspect the connector");
        let mut body = whereabouts_text(cond, self.pci.as_str());
        body.append(" but the power limit (");
        body.append(watts_text(cur).as_str());
        body.append("W) is already at/below the safe target — the cap lever is exhausted; this is likely a true hardware fault needing physical intervention");
        Report { line, message: audit("cannot reduce power", body, ts) }
    }

    fn report_capped(&self, cond: Condition, ts: &str, cur: u32, now: u32) -> (r: Report)
        ensures
            r@ == capped(self@, cond, ts@, cur, now),
    {
        let mut line = "# safety: CAPPED ".to_owned();
        line.append(self.pci.as_str());
        line.append(" ");
        line.append(watts_text(cur).as_str());
        line.append("W -> ");
        line.append(watts_text(now).as_str());
        line.append("W (");
        line.append(cond.label());
        line.append(")");
        let mut body = whereabouts_text(cond, self.pci.as_str());
        body.append(" — capped ");
        body.append(watts_text(cur).as_str());
        body.append("W -> ");
        body.append(watts_text(now).as_str());
        body.append("W to cut connector current. The fault is NOT cleared; inspect the connector. Restore: `astral-watch restore-power-limit`");
        Report { line, message: audit("power capped", body, ts) }
    }

    fn report_unstuck(&self, cond: Condition, ts: &str, target: u32, now: u32) -> (r: Report)
        ensures
            r@ == unstuck(self@, cond, ts@, target, now),
    {
        let mut line = "# safety: cap DID NOT STICK on ".to_owned();
        line.append(self.pci.as_str());
        line.append(" (asked ");
        line.append(watts_text(target).as_str());
        line.append("W, limit now ");
        line.append(watts_text(now).as_str());
        line.append("W) — NOT protected");
        let mut body = whereabouts_text(cond, self.pci.as_str());
        body.append(" but the power limit did not change (asked ");
        body.append(watts_text(target).as_str());
        body.append("W, still ");
        body.append(watts_text(now).as_str());
        body.append("W) — the GPU is NOT protected; physical inspection required");
        Report { line, message: audit("cap failed", body, ts) }
    }

    fn report_unwritable(&self, cond: Condition, ts: &str, e: &str) -> (r: Report)
        ensures
            r@ == unwritable(self@, cond, ts@, e@),
    {
        let mut line = "# safety: set_power_management_limit failed: ".to_owned();
        line.append(e);
        let mut body = whereabouts_text(cond, self.pci.as_str());
        body.append(" but the NVML power-limit write failed: ");
        body.append(e);
        Report { line, message: audit("cap failed", body, ts) }
    }

    /// What to say on exit: an engaged cap is held, and the operator is told how to restore.
    pub fn farewell(&self) -> (s: Option<String>)
        ensures
            match s {
                Some(s) => self.engaged && s@
                    == "# safety: EXITING WITH POWER CAP STILL ENGAGED on "@ + self.pci@
                    + " (now "@ + watts(self.capped_mw)
                    + "W). A sustained overload was detected and the cap is LATCHED — inspect the connector, then run `astral-watch restore-power-limit` or reboot to restore "@
                    + watts(self.original_mw) + "W."@,
                None => !self.engaged,
            },
    {
        if !self.engaged {
            return None;
        }
        let mut s = "# safety: EXITING WITH POWER CAP STILL ENGAGED on ".to_owned();
        s.append(self.pci.as_str());
        s.append(" (now ");
        s.append(watts_text(self.capped_mw).as_str());
        s.append("W). A sustained overload was detected and the cap is LATCHED — inspect the connector, then run `astral-watch restore-power-limit` or reboot to restore ");
        s.append(watts_text(self.original_mw).as_str());
        s.append("W.");
        Some(s)
    }
}

// ---------------------------------------------------------------- starting

/// Why the daemon does not start: it refuses loudly rather than become a silent no-op.
#[derive(Debug, PartialEq)]
pub enum StartRefusal {
    /// The config does not arm it.
    Disarmed,
    /// The card behind the monitored bus is unknown.
    UnknownCard,
    /// The power-limit constraints make no sense.
    Implausible { pci: String, default_mw: u32, min_mw: u32, max_mw: u32 },
}

/// The message of a refusal.
pub open spec fn start_refusal_text(r: StartRefusal) -> Seq<char> {
    match r {
        StartRefusal::Disarmed =>
            "[safety] enabled = false — refusing to run the actuating daemon. Set `[safety] enabled = true` in the config to arm it."@,
        StartRefusal::UnknownCard =>
            "cannot resolve the PCI id of the monitored i2c bus — refusing to cap a GPU I can't identify"@,
        StartRefusal::Implausible { pci, default_mw, min_mw, max_mw } =>
            "NVML power-limit constraints look implausible for "@ + pci@ + " (default "@ + watts(
            default_mw,
        ) + "W, range "@ + watts(min_mw) + "-"@ + watts(max_mw) + "W) — refusing to act"@,
    }
}

impl StartRefusal {
    /// The message.
    pub fn to_string(&self) -> (s: String)
        ensures
            s@ == start_refusal_text(*self),
    {
        match self {
            StartRefusal::Disarmed =>
                "[safety] enabled = false — refusing to run the actuating daemon. Set `[safety] enabled = true` in the config to arm it.".to_owned(),
            StartRefusal::UnknownCard =>
                "cannot resolve the PCI id of the monitored i2c bus — refusing to cap a GPU I can't identify".to_owned(),
            StartRefusal::Implausible { pci, default_mw, min_mw, max_mw } => {
                let mut s = "NVML power-limit constraints look implausible for ".to_owned();
                s.append(pci.as_str());
                s.append(" (default ");
                s.append(watts_text(*default_mw).as_str());
                s.append("W, range ");
                s.append(watts_text(*min_mw).as_str());
                s.append("-");
                s.append(watts_text(*max_mw).as_str());
                s.append("W) — refusing to act");
                s
            },
        }
    }
}

/// Why the daemon does not start before the driver is asked, if it does not.
pub open spec fn start_refused(enabled: bool, known: bool) -> Option<StartRefusal> {
    if !enabled {
        Some(StartRefusal::Disarmed)
    } else if !known {
        Some(StartRefusal::UnknownCard)
    } else {
        None
    }
}

/// The first refusal before the driver is asked: unarmed, or a bus whose card is unknown.
pub fn identify(cfg: &SafetyConfig, pci: Option<String>) -> (r: Result<String, StartRefusal>)
    ensures
        match r {
            Ok(s) => cfg.enabled && pci is Some && s@ == pci->0@,
            Err(e) => if !cfg.enabled {
                e == StartRefusal::Disarmed
            } else {
                pci is None && e == StartRefusal::UnknownCard
            },
        },
        match r {
            Ok(_) => start_refused(cfg.enabled, pci is Some) is None,
            Err(e) => start_refused(cfg.enabled, pci is Some) == Some(e),
        },
{
    if !cfg.enabled {
        return Err(StartRefusal::Disarmed);
    }
    match pci {
        Some(s) => Ok(s),
        None => Err(StartRefusal::UnknownCard),
    }
}

/// Whether power-limit constraints make sense.
pub open spec fn limits_fit(default_mw: u32, min_mw: u32, max_mw: u32) -> bool {
    &&& min_mw < max_mw
    &&& min_mw <= default_mw <= max_mw
    &&& 50_000 <= default_mw <= 2_000_000
}

/// Refuse implausible constraints rather than compute a nonsense cap.
pub fn check_limits(pci: &str, default_mw: u32, min_mw: u32, max_mw: u32) -> (r: Result<
    (),
    StartRefusal,
>)
    ensures
        match r {
            Ok(_) => limits_fit(default_mw, min_mw, max_mw),
            Err(e) => !limits_fit(default_mw, min_mw, max_mw) && e is Implausible
                && e->Implausible_pci@ == pci@ && e->Implausible_default_mw == default_mw
                && e->Implausible_min_mw == min_mw && e->Implausible_max_mw == max_mw,
        },
{
    if min_mw < max_mw && min_mw <= default_mw && default_mw <= max_mw && 50_000 <= default_mw
        && default_mw <= 2_000_000 {
        Ok(())
    } else {
        Err(StartRefusal::Implausible { pci: pci.to_owned(), default_mw, min_mw, max_mw })
    }
}

/// What the daemon announces at startup.
pub open spec fn startup_text(
    pci: Seq<char>,
    p: CapParams,
    current_mw: u32,
    cfg: SafetyConfig,
) -> Seq<char> {
    "# safety: "@ + pci + "  limit "@ + watts(current_mw) + "W  default "@ + watts(p.default_mw)
        + "W  range "@ + watts(p.min_mw) + "-"@ + watts(p.max_mw) + "W  -> on overload cap to "@
        + (match cap_decision(p.default_mw, current_mw, p.min_mw, p.max_mw, p.fraction) {
        CapDecision::Apply(t) => watts(t) + "W"@,
        CapDecision::Exhausted => "no headroom (already at/below target)"@,
    }) + "  (latched; trigger disconnect="@ + yes_no(cfg.trigger_disconnect) + " imbalance="@
        + yes_no(cfg.trigger_imbalance) + ")"@
}

/// A flag in words.
pub open spec fn yes_no(b: bool) -> Seq<char> {
    if b {
        "true"@
    } else {
        "false"@
    }
}

fn yes_no_text(b: bool) -> (s: &'static str)
    ensures
        s@ == yes_no(b),
{
    if b {
        "true"
    } else {
        "false"
    }
}

/// What the daemon announces at startup.
pub fn startup_line(pci: &str, p: &CapParams, current_mw: u32, cfg: &SafetyConfig) -> (s: String)
    requires
        p.min_mw <= p.max_mw,
    ensures
        s@ == startup_text(pci@, *p, current_mw, *cfg),
{
    let preview = match p.decide(current_mw) {
        CapDecision::Apply(t) => {
            let mut w = watts_text(t);
            w.append("W");
            w
        },
        CapDecision::Exhausted => "no headroom (already at/below target)".to_owned(),
    };
    let mut s = "# safety: ".to_owned();
    s.append(pci);
    s.append("  limit ");
    s.append(watts_text(current_mw).as_str());
    s.append("W  default ");
    s.append(watts_text(p.default_mw).as_str());
    s.append("W  range ");
    s.append(watts_text(p.min_mw).as_str());
    s.append("-");
    s.append(watts_text(p.max_mw).as_str());
    s.append("W  -> on overload cap to ");
    s.append(preview.as_str());
    s.append("  (latched; trigger disconnect=");
    s.append(yes_no_text(cfg.trigger_disconnect));
    s.append(" imbalance=");
    s.append(yes_no_text(cfg.trigger_imbalance));
    s.append(")");
    s
}

/// What becomes of a state file found at startup.
#[derive(Debug, PartialEq)]
pub enum Adoption {
    /// There is none.
    Nothing,
    /// Its cap is this card's and stays engaged; say so.
    Adopted(String),
    /// It is a stale entry for a different card: delete it.
    Stale,
}

/// Whether a recorded cap is for this card.
pub open spec fn same_card(st: CapStateView, pci: Seq<char>) -> bool {
    i2c::normal_pci(st.pci) == i2c::normal_pci(pci)
}

/// The guard at startup: a cap left on this card by a crash or restart is adopted, with the true
/// original.
pub open spec fn initial_guard(
    pci: Seq<char>,
    current_mw: u32,
    st: Option<CapState>,
) -> GuardView {
    if st is Some && same_card(st->0@, pci) {
        GuardView {
            pci,
            original_mw: st->0.original_mw,
            capped_mw: st->0.capped_mw,
            engaged: true,
        }
    } else {
        GuardView { pci, original_mw: current_mw, capped_mw: 0, engaged: false }
    }
}

/// What is said of an adopted cap.
pub open spec fn adopted_text(st: CapStateView) -> Seq<char> {
    "# safety: adopted an existing cap from "@ + STATE_FILE@ + " (orig "@ + watts(st.original_mw)
        + "W, cap "@ + watts(st.capped_mw)
        + "W) — latched; restore with `astral-watch restore-power-limit`"@
}

/// Adopt a same-boot cap left by a crash or restart: keep the cap engaged with the TRUE original,
/// rather than restoring (which would re-expose the connector) or treating the already-lowered
/// limit as the original (which would ratchet down).
pub fn adopt(pci: String, current_mw: u32, st: &Option<CapState>) -> (r: (CapGuard, Adoption))
    ensures
        r.0@ == initial_guard(pci@, current_mw, *st),
        match r.1 {
            Adoption::Nothing => st is None,
            Adoption::Adopted(s) => st is Some && same_card(st->0@, pci@) && s@ == adopted_text(
                st->0@,
            ),
            Adoption::Stale => st is Some && !same_card(st->0@, pci@),
        },
{
    match st {
        None => (
            CapGuard { pci, original_mw: current_mw, capped_mw: 0, engaged: false },
            Adoption::Nothing,
        ),
        Some(st) => {
            if same_text(norm_pci(st.pci.as_str()).as_str(), norm_pci(pci.as_str()).as_str()) {
                let mut s = "# safety: adopted an existing cap from ".to_owned();
                s.append(STATE_FILE);
                s.append(" (orig ");
                s.append(watts_text(st.original_mw).as_str());
                s.append("W, cap ");
                s.append(watts_text(st.capped_mw).as_str());
                s.append("W) — latched; restore with `astral-watch restore-power-limit`");
                (
                    CapGuard {
                        pci,
                        original_mw: st.original_mw,
                        capped_mw: st.capped_mw,
                        engaged: true,
                    },
                    Adoption::Adopted(s),
                )
            } else {
                (
                    CapGuard { pci, original_mw: current_mw, capped_mw: 0, engaged: false },
                    Adoption::Stale,
                )
            }
        },
    }
}

// ---------------------------------------------------------------- sampling

/// The daemon: the guard and what it decides by. It has its own sampling and its own alert
/// lifecycle, so protection never depends on the monitor's liveness.
pub struct Daemon {
    pub guard: CapGuard,
    pub params: CapParams,
    pub triggers: SafetyConfig,
    pub thresholds: Thresholds,
    pub lifecycle: Lifecycle,
    /// Consecutive unusable samples.
    pub misses: u32,
    /// Whether the bus was found rather than named.
    pub auto: bool,
}

/// What a [`Daemon`] holds.
#[verifier::ext_equal]
pub struct DaemonView {
    pub guard: GuardView,
    pub params: CapParams,
    pub triggers: SafetyConfig,
    pub thresholds: Thresholds,
    /// The policy of the lifecycle.
    pub policy: AlertPolicy,
    /// Where each condition stands in the lifecycle.
    pub phases: Seq<Phase>,
    pub misses: u32,
    pub auto: bool,
}

impl View for Daemon {
    type V = DaemonView;

    open spec fn view(&self) -> DaemonView {
        DaemonView {
            guard: self.guard@,
            params: self.params,
            triggers: self.triggers,
            thresholds: self.thresholds,
            policy: self.lifecycle.policy(),
            phases: self.lifecycle.phases(),
            misses: self.misses,
            auto: self.auto,
        }
    }
}

/// What a sample says: its alerts when it can be trusted, else that telemetry is lost.
pub open spec fn sample_says(sample: Result<Reading, String>, t: Thresholds) -> Seq<
    (Condition, Seq<char>),
> {
    match sample {
        Ok(r) => if decode::is_plausible(r.pins@) && current_fits(r.pins@) {
            lifecycle::conditions_in(alert::alerts_of(r.pins@, t))
        } else {
            seq![(Condition::TelemetryLost, "implausible reading (failed sanity checks)"@)]
        },
        Err(e) => seq![(Condition::TelemetryLost, "read failed: "@ + e@)],
    }
}

/// Whether a sample can be trusted.
pub open spec fn usable(sample: Result<Reading, String>) -> bool {
    sample is Ok && decode::is_plausible(sample->Ok_0.pins@) && current_fits(sample->Ok_0.pins@)
}

/// The conditions freshly raised that cap the power, in order.
pub open spec fn raised_triggers(events: Seq<EventView>, cfg: SafetyConfig) -> Seq<Condition>
    decreases events.len(),
{
    if events.len() == 0 {
        seq![]
    } else {
        let before = raised_triggers(events.drop_last(), cfg);
        match events.last() {
            EventView::Raised { condition, detail } => if triggers(condition, cfg) {
                before.push(condition)
            } else {
                before
            },
            _ => before,
        }
    }
}

/// One more miss, or as many as the counter holds.
pub open spec fn missed(n: u32) -> u32 {
    if n < u32::MAX {
        (n + 1) as u32
    } else {
        n
    }
}

/// The consecutive misses after a sample that could be used, or could not.
pub open spec fn misses_after(usable: bool, misses: u32) -> u32 {
    if usable {
        0
    } else {
        missed(misses)
    }
}

/// The daemon after a sample.
pub open spec fn sampled(
    d: DaemonView,
    sample: Result<Reading, String>,
    now: Instant,
) -> DaemonView {
    DaemonView {
        misses: if usable(sample) {
            0
        } else {
            missed(d.misses)
        },
        phases: Seq::new(
            4,
            |i: int|
                lifecycle::advance_at(
                    d.policy,
                    d.phases,
                    now,
                    sample_says(sample, d.thresholds),
                    i,
                ).0,
        ),
        ..d
    }
}

/// The conditions that a sample gives to cap for: the trigger conditions it raises, and none
/// while a cap is engaged.
pub open spec fn causes(
    d: DaemonView,
    sample: Result<Reading, String>,
    now: Instant,
) -> Seq<Condition> {
    if d.guard.engaged {
        seq![]
    } else {
        raised_triggers(
            lifecycle::announced(
                d.policy,
                d.phases,
                now,
                sample_says(sample, d.thresholds),
                4,
            ),
            d.triggers,
        )
    }
}

/// Whether detection is to be run again.
pub open spec fn lost_the_bus(d: DaemonView) -> bool {
    d.auto && d.misses >= REDETECT_AFTER
}

/// The daemon after it was asked whether detection is to be run again.
pub open spec fn asked_for_the_bus(d: DaemonView) -> DaemonView {
    DaemonView {
        misses: if lost_the_bus(d) {
            0
        } else {
            d.misses
        },
        ..d
    }
}

fn says(sample: &Result<Reading, String>, t: &Thresholds) -> (out: (
    Vec<(Condition, String)>,
    bool,
))
    ensures
        lifecycle::said(out.0@) == sample_says(*sample, *t),
        out.1 == usable(*sample),
{
    match sample {
        Ok(r) => {
            if r.plausible() && current_plausible(r) {
                (conditions(&evaluate_with(r, t)), true)
            } else {
                let mut v: Vec<(Condition, String)> = Vec::new();
                v.push(
                    (
                        Condition::TelemetryLost,
                        "implausible reading (failed sanity checks)".to_owned(),
                    ),
                );
                assert(lifecycle::said(v@) =~= sample_says(*sample, *t));
                (v, false)
            }
        },
        Err(e) => {
            let mut s = "read failed: ".to_owned();
            s.append(e.as_str());
            let mut v: Vec<(Condition, String)> = Vec::new();
            v.push((Condition::TelemetryLost, s));
            assert(lifecycle::said(v@) =~= sample_says(*sample, *t));
            (v, false)
        },
    }
}

fn fresh_triggers(events: &Vec<Event>, cfg: &SafetyConfig) -> (out: Vec<Condition>)
    ensures
        out@ == raised_triggers(lifecycle::event_views(events@), *cfg),
{
    let ghost all = lifecycle::event_views(events@);
    let mut out: Vec<Condition> = Vec::new();
    let mut i: usize = 0;
    assert(all.take(0) =~= seq![]);
    while i < events.len()
        invariant
            i <= events.len(),
            all == lifecycle::event_views(events@),
            out@ == raised_triggers(all.take(i as int), *cfg),
        decreases events.len() - i,
    {
        assert(all.take(i + 1).drop_last() =~= all.take(i as int));
        assert(all.take(i + 1).last() == events@[i as int]@);
        match &events[i] {
            Event::Raised { condition, .. } => {
                if is_trigger(*condition, cfg) {
                    out.push(*condition);
                }
            },
            _ => {},
        }
        i = i + 1;
    }
    assert(all.take(all.len() as int) =~= all);
    out
}

impl Daemon {
    /// The constraints make sense and the lifecycle is in order.
    pub open spec fn wf(&self) -> bool {
        self.lifecycle.wf() && self.params.min_mw <= self.params.max_mw
    }

    /// A daemon that has sampled nothing yet.
    pub fn new(
        guard: CapGuard,
        params: CapParams,
        triggers: SafetyConfig,
        thresholds: Thresholds,
        policy: AlertPolicy,
        auto: bool,
    ) -> (d: Daemon)
        requires
            policy.confirm_samples >= 1,
            params.min_mw <= params.max_mw,
        ensures
            d.wf(),
            d@ == (DaemonView {
                guard: guard@,
                params,
                triggers,
                thresholds,
                policy,
                phases: seq![
                    lifecycle::fresh(),
                    lifecycle::fresh(),
                    lifecycle::fresh(),
                    lifecycle::fresh(),
                ],
                misses: 0,
                auto,
            }),
    {
        Daemon {
            guard,
            params,
            triggers,
            thresholds,
            lifecycle: Lifecycle::new(policy),
            misses: 0,
            auto,
        }
    }

    /// Take in one sample. The result is the trigger conditions that this sample confirmed and
    /// that a cap is to be tried for, one after the other until one is engaged. The cap is
    /// latched: with one engaged there is nothing to try, and a repeat or a resolve is never acted
    /// on — a "resolved" while capped would be a false all-clear, because the cap is what pulled
    /// current down.
    pub fn sample(&mut self, sample: &Result<Reading, String>, now: Instant) -> (out: Vec<
        Condition,
    >)
        requires
            old(self).wf(),
        ensures
            final(self).wf(),
            final(self)@ == sampled(old(self)@, *sample, now),
            out@ == causes(old(self)@, *sample, now),
    {
        let (present, ok) = says(sample, &self.thresholds);
        self.misses = if ok {
            0
        } else if self.misses < u32::MAX {
            self.misses + 1
        } else {
            self.misses
        };
        let events = self.lifecycle.observe(now, present.as_slice());
        assert(self@ =~= sampled(old(self)@, *sample, now));
        if self.guard.engaged {
            Vec::new()
        } else {
            fresh_triggers(&events, &self.triggers)
        }
    }

    /// Whether detection is to be run again, after sustained failure on a bus that was found
    /// rather than named; asking starts the count anew.
    pub fn redetect_due(&mut self) -> (r: bool)
        ensures
            old(self).wf() ==> final(self).wf(),
            final(self)@ == asked_for_the_bus(old(self)@),
            r == lost_the_bus(old(self)@),
    {
        if self.auto && self.misses >= REDETECT_AFTER {
            self.misses = 0;
            true
        } else {
            false
        }
    }

    /// Try to engage a cap for a confirmed trigger condition, given the limit in effect or why it
    /// could not be read. No-op for an already-engaged cap.
    pub fn try_engage(&self, cond: Condition, ts: &str, limit: Result<u32, String>) -> (out: Engage)
        requires
            self.wf(),
        ensures
            out@ == engage_step(self.guard@, self.params, cond, ts@, limit),
    {
        if self.guard.engaged {
            return Engage::Nothing;
        }
        match limit {
            Err(e) => Engage::Report(self.guard.report_unreadable(cond, ts, e.as_str())),
            Ok(cur) => match self.params.decide(cur) {
                CapDecision::Apply(target) => Engage::Write(Attempt { cond, over: cur, target }),
                CapDecision::Exhausted => {
                    Engage::Report(self.guard.report_exhausted(cond, ts, cur))
                },
            },
        }
    }

    /// Conclude an attempt: its limit was written and `readback` is the limit that was read back,
    /// or why either failed. A cap counts as engaged only when the read-back confirms it. The
    /// second part is the state to persist. No-op for an already-engaged cap.
    pub fn confirm(
        &mut self,
        attempt: Attempt,
        ts: &str,
        readback: Result<u32, String>,
    ) -> (out: (Option<Report>, Option<CapState>))
        ensures
            old(self).wf() ==> final(self).wf(),
            final(self)@ == (DaemonView {
                guard: confirmed(old(self).guard@, attempt@, readback),
                ..old(self)@
            }),
            match out.0 {
                Some(r) => confirm_report(old(self).guard@, attempt@, ts@, readback) == Some(r@),
                None => confirm_report(old(self).guard@, attempt@, ts@, readback) is None,
            },
            match out.1 {
                Some(st) => confirm_record(old(self).guard@, attempt@, ts@, readback) == Some(st@),
                None => confirm_record(old(self).guard@, attempt@, ts@, readback) is None,
            },
    {
        if self.guard.engaged {
            return (None, None);
        }
        let cond = attempt.cond;
        match readback {
            Ok(now) => {
                if within(now, attempt.target, LIMIT_TOL_MW) {
                    let report = self.guard.report_capped(cond, ts, attempt.over, now);
                    self.guard.original_mw = attempt.over;
                    self.guard.capped_mw = now;
                    self.guard.engaged = true;
                    let st = CapState {
                        pci: self.guard.pci.clone(),
                        original_mw: attempt.over,
                        capped_mw: now,
                        ts: ts.to_owned(),
                    };
                    (Some(report), Some(st))
                } else {
                    (Some(self.guard.report_unstuck(cond, ts, attempt.target, now)), None)
                }
            },
            Err(e) => (Some(self.guard.report_unwritable(cond, ts, e.as_str())), None),
        }
    }
}

/// The warning about a state file that could not be written.
pub fn persist_warning(e: &str) -> (s: String)
    ensures
        s@ == "# safety: warning: could not persist cap state: "@ + e@
            + " (crash recovery degraded)"@,
{
    let mut s = "# safety: warning: could not persist cap state: ".to_owned();
    s.append(e);
    s.append(" (crash recovery degraded)");
    s
}

/// What the daemon says before anything else.
pub fn banner() -> (lines: [&'static str; 5])
    ensures
        lines@.map_values(|s: &'static str| s@) == seq![
            "# ============================================================"@,
            "# astral-watch SAFETY DAEMON"@,
            "# This is the ONLY mode that mutates GPU state: on a sustained"@,
            "# connector overload it REDUCES the GPU power limit via NVML."@,
            "# ============================================================"@,
        ],
{
    let lines = [
        "# ============================================================",
        "# astral-watch SAFETY DAEMON",
        "# This is the ONLY mode that mutates GPU state: on a sustained",
        "# connector overload it REDUCES the GPU power limit via NVML.",
        "# ============================================================",
    ];
    assert(lines@.map_values(|s: &'static str| s@) =~= seq![
        "# ============================================================"@,
        "# astral-watch SAFETY DAEMON"@,
        "# This is the ONLY mode that mutates GPU state: on a sustained"@,
        "# connector overload it REDUCES the GPU power limit via NVML."@,
        "# ============================================================"@,
    ]);
    lines
}

// ---------------------------------------------------------------- restoring

/// What undoing a recorded cap does, given the limit in effect.
#[derive(Debug, Clone, Copy, PartialEq, Eq, Structural)]
pub enum Restore {
    /// Write the original limit.
    Write(u32),
    /// The in-effect limit is no longer the value that was set — another tool took over; it is
    /// left as it is.
    LeaveAlone,
}

/// What undoing a recorded cap does while `current_mw` is in effect.
pub open spec fn restored(original_mw: u32, capped_mw: u32, current_mw: u32) -> Restore {
    if close(current_mw, capped_mw, LIMIT_TOL_MW) {
        Restore::Write(original_mw)
    } else {
        Restore::LeaveAlone
    }
}

/// Undo a recorded cap only while it is the limit in effect.
pub fn restore_step(st: &CapState, current_mw: u32) -> (r: Restore)
    ensures
        r == (if close(current_mw, st.capped_mw, LIMIT_TOL_MW) {
            Restore::Write(st.original_mw)
        } else {
            Restore::LeaveAlone
        }),
        r == restored(st.original_mw, st.capped_mw, current_mw),
{
    if within(current_mw, st.capped_mw, LIMIT_TOL_MW) {
        Restore::Write(st.original_mw)
    } else {
        Restore::LeaveAlone
    }
}

/// What is said after undoing a recorded cap; `None` for no recorded cap at all.
pub fn restore_text(st: &Option<CapState>, done: Restore) -> (s: String)
    ensures
        s@ == (match *st {
            None => "no astral-watch power cap is recorded ("@ + STATE_FILE@
                + " absent) — nothing to restore. A reboot clears any volatile cap."@,
            Some(st) => match done {
                Restore::Write(_) => "restored "@ + st.pci@ + " power limit to "@ + watts(
                    st.original_mw,
                ) + "W"@,
                Restore::LeaveAlone => "the power limit on "@ + st.pci@
                    + " is no longer the value astral-watch set ("@ + watts(st.capped_mw)
                    + "W) — another tool changed it; leaving it as-is"@,
            },
        }),
{
    match st {
        None => {
            let mut s = "no astral-watch power cap is recorded (".to_owned();
            s.append(STATE_FILE);
            s.append(" absent) — nothing to restore. A reboot clears any volatile cap.");
            s
        },
        Some(st) => match done {
            Restore::Write(_) => {
                let mut s = "restored ".to_owned();
                s.append(st.pci.as_str());
                s.append(" power limit to ");
                s.append(watts_text(st.original_mw).as_str());
                s.append("W");
                s
            },
            Restore::LeaveAlone => {
                let mut s = "the power limit on ".to_owned();
                s.append(st.pci.as_str());
                s.append(" is no longer the value astral-watch set (");
                s.append(watts_text(st.capped_mw).as_str());
                s.append("W) — another tool changed it; leaving it as-is");
                s
            },
        },
    }
}

/// Where the state file lives.
pub fn state_dir() -> (s: String)
    ensures
        s@ == STATE_DIR@,
{
    STATE_DIR.to_owned()
}

// ---------------------------------------------------------------- laws

/// Whatever the driver says, an attempt to cap only ever writes a limit strictly below the one in
/// effect, and within the constraints.
pub proof fn law_an_attempt_only_lowers(
    g: GuardView,
    p: CapParams,
    cond: Condition,
    ts: Seq<char>,
    limit: Result<u32, String>,
    a: AttemptView,
)
    requires
        p.min_mw <= p.max_mw,
        engage_step(g, p, cond, ts, limit) == EngageView::Write(a),
    ensures
        limit == Ok::<u32, String>(a.over),
        a.cond == cond,
        a.target < a.over,
        p.min_mw <= a.target <= p.max_mw,
{
}

/// A sample that cannot be trusted never leads to a cap: it says only that telemetry is lost,
/// which raises no physical condition and is itself no trigger.
pub proof fn law_a_bad_sample_never_caps(
    p: AlertPolicy,
    phases: Seq<lifecycle::Phase>,
    now: Instant,
    sample: Result<Reading, String>,
    t: Thresholds,
    cfg: SafetyConfig,
)
    requires
        !usable(sample),
    ensures
        raised_triggers(
            lifecycle::announced(p, phases, now, sample_says(sample, t), 4),
            cfg,
        ) == Seq::<Condition>::empty(),
{
    let said = sample_says(sample, t);
    assert(said.len() == 1 && said[0].0 == Condition::TelemetryLost);
    assert(said.drop_last() =~= seq![]);
    assert(said.last() == said[0]);
    assert(lifecycle::detail_of(said.drop_last(), Condition::TelemetryLost) is None);
    assert(lifecycle::is_lost(said));
    assert forall|c: Condition| c != Condition::TelemetryLost implies lifecycle::detail_of(
        said,
        c,
    ) is None by {
        assert(lifecycle::detail_of(said.drop_last(), c) is None);
    }
    lemma_nothing_raised(p, phases, now, said, cfg, 4);
}

proof fn lemma_nothing_raised(
    p: AlertPolicy,
    phases: Seq<lifecycle::Phase>,
    now: Instant,
    said: Seq<(Condition, Seq<char>)>,
    cfg: SafetyConfig,
    n: nat,
)
    requires
        n <= 4,
        lifecycle::is_lost(said),
        forall|c: Condition|
            c != Condition::TelemetryLost ==> lifecycle::detail_of(said, c) is None,
    ensures
        raised_triggers(lifecycle::announced(p, phases, now, said, n), cfg) == Seq::<
            Condition,
        >::empty(),
    decreases n,
{
    if n > 0 {
        lemma_nothing_raised(p, phases, now, said, cfg, (n - 1) as nat);
        let before = lifecycle::announced(p, phases, now, said, (n - 1) as nat);
        let step = lifecycle::advance_at(p, phases, now, said, n - 1);
        if step.1 is Some {
            let all = before.push(step.1->0);
            assert(all.drop_last() =~= before);
            if n < 4 {
                assert(lifecycle::condition_at(n - 1) != Condition::TelemetryLost);
                assert(step.1 is None);
            }
        }
    }
}

/// A cap counts as engaged only when the read-back confirms the limit that was asked for, and
/// then the limit recorded as the original is the one that was in effect before.
pub proof fn law_engaged_means_confirmed(
    g: GuardView,
    a: AttemptView,
    readback: Result<u32, String>,
)
    requires
        !g.engaged,
    ensures
        confirmed(g, a, readback).engaged <==> readback is Ok && close(
            readback->Ok_0,
            a.target,
            LIMIT_TOL_MW,
        ),
        confirmed(g, a, readback).engaged ==> confirmed(g, a, readback).original_mw == a.over,
        confirmed(g, a, readback).pci == g.pci,
{
}

/// A restart adopts the live cap of its own card with the true original, whatever the limit now
/// reads, so that restoring later gives back what was in effect before the cap.
pub proof fn law_a_restart_keeps_the_original(
    g: GuardView,
    ts: Seq<char>,
    st: CapState,
    current_mw: u32,
)
    requires
        g.engaged,
        st@ == (CapStateView {
            pci: g.pci,
            original_mw: g.original_mw,
            capped_mw: g.capped_mw,
            ts,
        }),
    ensures
        initial_guard(g.pci, current_mw, Some(st)) == g,
{
}

// ---------------------------------------------------------------- laws of whole runs

/// One thing that is done with the daemon.
pub enum Step {
    /// [`Daemon::sample`]
    Sample { sample: Result<Reading, String>, now: Instant },
    /// [`Daemon::redetect_due`]
    Redetect,
    /// [`Daemon::try_engage`]
    Engage { cond: Condition, ts: Seq<char>, limit: Result<u32, String> },
    /// [`Daemon::confirm`]
    Confirm { attempt: AttemptView, ts: Seq<char>, readback: Result<u32, String> },
}

/// The daemon after one step.
pub open spec fn after_step(d: DaemonView, s: Step) -> DaemonView {
    match s {
        Step::Sample { sample, now } => sampled(d, sample, now),
        Step::Redetect => asked_for_the_bus(d),
        Step::Engage { cond, ts, limit } => d,
        Step::Confirm { attempt, ts, readback } => DaemonView {
            guard: confirmed(d.guard, attempt, readback),
            ..d
        },
    }
}

/// The daemon after a run of steps.
pub open spec fn after_run(d: DaemonView, run: Seq<Step>) -> DaemonView
    decreases run.len(),
{
    if run.len() == 0 {
        d
    } else {
        after_step(after_run(d, run.drop_last()), run.last())
    }
}

/// The limit that a step asks to be written.
pub open spec fn written(d: DaemonView, s: Step) -> Option<AttemptView> {
    match s {
        Step::Engage { cond, ts, limit } => match engage_step(d.guard, d.params, cond, ts, limit) {
            EngageView::Write(a) => Some(a),
            _ => None,
        },
        _ => None,
    }
}

/// What a step gives to be said.
pub open spec fn reported(d: DaemonView, s: Step) -> Option<ReportView> {
    match s {
        Step::Engage { cond, ts, limit } => match engage_step(d.guard, d.params, cond, ts, limit) {
            EngageView::Report(r) => Some(r),
            _ => None,
        },
        Step::Confirm { attempt, ts, readback } => confirm_report(d.guard, attempt, ts, readback),
        _ => None,
    }
}

/// What a step gives to be persisted.
pub open spec fn recorded(d: DaemonView, s: Step) -> Option<CapStateView> {
    match s {
        Step::Confirm { attempt, ts, readback } => confirm_record(d.guard, attempt, ts, readback),
        _ => None,
    }
}

/// Whether a step gives conditions to cap for.
pub open spec fn gives_cause(d: DaemonView, s: Step) -> bool {
    s matches Step::Sample { sample, now } && causes(d, sample, now).len() > 0
}

proof fn lemma_run_keeps_params(d: DaemonView, run: Seq<Step>)
    ensures
        after_run(d, run).params == d.params,
        after_run(d, run).guard.pci == d.guard.pci,
    decreases run.len(),
{
    if run.len() > 0 {
        lemma_run_keeps_params(d, run.drop_last());
    }
}

/// The cap is latched: one decisive cap, held. From the step on that leaves it engaged, and
/// whatever is sampled, tried or confirmed after it, the guard stays exactly as it is — the cap
/// and the original limit with it — and no step asks for a write, gives a cause to cap, says
/// anything or records another cap.
pub proof fn law_the_cap_is_latched(d: DaemonView, run: Seq<Step>, i: int, j: int)
    requires
        0 <= i <= j <= run.len(),
        after_run(d, run.take(i)).guard.engaged,
    ensures
        after_run(d, run.take(j)).guard == after_run(d, run.take(i)).guard,
        j < run.len() ==> {
            let then = after_run(d, run.take(j));
            &&& written(then, run[j]) is None
            &&& reported(then, run[j]) is None
            &&& recorded(then, run[j]) is None
            &&& !gives_cause(then, run[j])
        },
    decreases j,
{
    if i < j {
        law_the_cap_is_latched(d, run, i, j - 1);
        assert(run.take(j).drop_last() =~= run.take(j - 1));
        assert(run.take(j).last() == run[j - 1]);
    }
}

/// A run engages a cap at most once: no two of its steps do.
pub proof fn law_a_run_engages_once(d: DaemonView, run: Seq<Step>, i: int, j: int)
    requires
        0 <= i < j < run.len(),
        recorded(after_run(d, run.take(i)), run[i]) is Some,
    ensures
        after_run(d, run.take(i + 1)).guard.engaged,
        recorded(after_run(d, run.take(j)), run[j]) is None,
        written(after_run(d, run.take(j)), run[j]) is None,
{
    assert(run.take(i + 1).drop_last() =~= run.take(i));
    assert(run.take(i + 1).last() == run[i]);
    law_the_cap_is_latched(d, run, i + 1, j);
}

/// A run only ever lowers the limit, and so never restores one: every write it asks for is
/// decided on the limit that was read as in effect, is strictly below it, and is within the
/// constraints.
pub proof fn law_a_run_only_lowers(d: DaemonView, run: Seq<Step>, k: int)
    requires
        d.params.min_mw <= d.params.max_mw,
        0 <= k < run.len(),
    ensures
        written(after_run(d, run.take(k)), run[k]) matches Some(a) ==> {
            &&& run[k] matches Step::Engage { cond, ts, limit }
            &&& limit == Ok::<u32, String>(a.over)
            &&& a.target < a.over
            &&& d.params.min_mw <= a.target <= d.params.max_mw
        },
{
    lemma_run_keeps_params(d, run.take(k));
}

/// A run never gives an all-clear: whatever it says is a raise of the power safety channel.
pub proof fn law_a_run_only_raises(d: DaemonView, run: Seq<Step>, k: int)
    requires
        0 <= k < run.len(),
    ensures
        reported(after_run(d, run.take(k)), run[k]) matches Some(r) ==> r.message.kind == "raised"@
            && r.message.condition == "power_safety"@,
{
}

/// A run that starts with a cap found on its own card holds that cap to its end: nothing is ever
/// written over it, and the recorded original stays.
pub proof fn law_an_adopted_cap_is_held(
    d: DaemonView,
    current_mw: u32,
    st: CapState,
    run: Seq<Step>,
    k: int,
)
    requires
        d.guard == initial_guard(d.guard.pci, current_mw, Some(st)),
        same_card(st@, d.guard.pci),
        0 <= k <= run.len(),
    ensures
        after_run(d, run.take(k)).guard == (GuardView {
            pci: d.guard.pci,
            original_mw: st.original_mw,
            capped_mw: st.capped_mw,
            engaged: true,
        }),
        k < run.len() ==> written(after_run(d, run.take(k)), run[k]) is None,
{
    assert(after_run(d, run.take(0)) == d);
    law_the_cap_is_latched(d, run, 0, k);
}

} // verus!
