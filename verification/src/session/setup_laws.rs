//! What holds of every setup burst, whatever the dock answers.

use vstd::prelude::*;

use crate::error::Error;
use crate::session::program;
use crate::session::program::{HeadStep, Op, SetupProfile, Step, When};
use crate::session::setup_state;
use crate::session::setup_state::Action;
use crate::time::Instant;

verus! {

/// Whether an outcome's counts are counts.
pub open spec fn honest(ev: setup_state::Ev) -> bool {
    match ev {
        setup_state::Ev::Swept(d, _) => d.reads >= 0 && d.acks >= 0 && d.rejects >= 0,
        setup_state::Ev::LiveSent(len, d, _) => len >= 0 && d.reads >= 0 && d.acks >= 0
            && d.rejects >= 0,
        setup_state::Ev::Sent(len) => len >= 0,
        _ => true,
    }
}

/// The burst after a run of outcomes.
pub open spec fn run(s: setup_state::State, evs: Seq<(setup_state::Ev, Instant)>) -> setup_state::State
    decreases evs.len(),
{
    if evs.len() == 0 || setup_state::finished(s) {
        s
    } else {
        run(setup_state::step_spec(s, evs[0].0, evs[0].1), evs.skip(1))
    }
}

/// What one step leaves of the burst, whichever it is.
pub open spec fn steady(s: setup_state::State, t: setup_state::State, waits: bool) -> bool {
    &&& t.program == s.program
    &&& t.ready_reported == s.ready_reported
    &&& s.acks <= t.acks
    &&& s.sent <= t.sent
    &&& t.head.d.acks >= 0
    &&& t.pos == s.pos || t.pos == s.pos + 1
    &&& t.pos == s.pos ==> t.failed is Some || waits
    &&& t.failed is Some || t.failed == s.failed
    &&& t.failed is Some ==> t.pos == s.pos
    &&& t.ctr == s.ctr || t.ctr == s.ctr + 1
    &&& t.ctr == s.ctr ==> t.wseq == s.wseq
}

proof fn lemma_internal_is_steady(s: setup_state::State, op: Op, now: Instant)
    requires
        s.failed is None,
        s.head.d.acks >= 0,
        setup_state::is_internal(op),
    ensures
        steady(s, setup_state::internal(s, op, now), false),
{
    reveal(setup_state::internal);
    match op {
        Op::HelloSent => {},
        Op::Advance(_) => {},
        Op::Gate { .. } => {},
        Op::Ready(_) => {},
        Op::CheckStatus => {},
        Op::CheckM => {},
        Op::Tally { .. } => {},
        Op::Authenticated(_) => {},
        Op::AckGate => {},
        Op::ClearEdid => {},
        Op::StartTimer => {},
        Op::StoreEdid { .. } => {},
        Op::DiscoverBegin => {},
        Op::EarlyCheck => {},
        Op::PollOpen => {},
        Op::PollCheck { .. } => {},
        Op::RetryCheck => {},
        Op::DiscoverEnd(_) => {},
        _ => {},
    }
}

/// Whether an operation may be performed more than once.
pub open spec fn waits(op: Op) -> bool {
    op is Await
}

proof fn lemma_outcome_is_steady(s: setup_state::State, op: Op, ev: setup_state::Ev, now: Instant)
    requires
        s.failed is None,
        s.head.d.acks >= 0,
        honest(ev),
    ensures
        steady(s, setup_state::outcome(s, op, ev, now), waits(op)),
{
    reveal(setup_state::outcome);
    match op {
        Op::HelloTry => {},
        Op::HeadReply { .. } => {},
        Op::HeadMore { .. } => {},
        Op::VerifyH(_) => {},
        Op::VerifyL(_) => {},
        Op::VerifyV(_) => {},
        Op::Live(..) => {},
        Op::Await { .. } => {},
        _ => {},
    }
}

/// The inner counter and the cipher block move together: no step moves one without the other,
/// and none moves the counter by more than one message. No step is performed twice but a wait,
/// and no acknowledgment or sent message is forgotten.
pub proof fn law_every_step_is_steady(s: setup_state::State, ev: setup_state::Ev, now: Instant)
    requires
        !setup_state::finished(s),
        s.head.d.acks >= 0,
        honest(ev),
    ensures
        steady(s, setup_state::step_spec(s, ev, now), waits(s.program[s.pos].op)),
{
    let step = s.program[s.pos];
    if setup_state::enabled(s, step.when) {
        if setup_state::is_internal(step.op) {
            if ev is Pass {
                lemma_internal_is_steady(s, step.op, now);
            }
        } else {
            lemma_outcome_is_steady(s, step.op, ev, now);
        }
    }
}

/// A wait for an EDID asks for no further sweep once its two seconds are up, so that it cannot
/// hold the burst.
pub proof fn law_waits_are_bounded(s: setup_state::State, settle: bool, now: Instant)
    requires
        !setup_state::finished(s),
        s.program[s.pos].op == (Op::Await { settle }),
        now.nanos - s.started.nanos >= setup_state::EDID_REPLY_WAIT
            * crate::time::NANOS_PER_MILLI,
    ensures
        setup_state::action_spec(s, now) == Action::Pass,
        setup_state::step_spec(s, setup_state::Ev::Pass, now) == setup_state::next(s),
{
    reveal(setup_state::outcome);
}

/// A connector without a sink fails nothing: its receiver's silence marks it skipped, and while
/// it is skipped its steps are passed over without effect.
pub proof fn law_empty_connectors_are_passed_over(
    s: setup_state::State,
    advance: bool,
    blocks: u32,
    now: Instant,
)
    requires
        !setup_state::finished(s),
    ensures
        s.program[s.pos] == (Step { when: When::Taken, op: Op::Gate { advance, blocks } })
            && !s.head.skipping && s.head.rrx is None ==> {
            let t = setup_state::step_spec(s, setup_state::Ev::Pass, now);
            t.failed is None && t.pos == s.pos + 1 && t.head.skipping
        },
        s.head.skipping && s.program[s.pos].when is Taken ==> setup_state::action_spec(s, now)
            == Action::Pass && setup_state::step_spec(s, setup_state::Ev::Pass, now)
            == setup_state::next(s),
{
    reveal(setup_state::internal);
}

/// A digest other than the one the receiver answered, or none answered at all, fails the burst
/// with a protocol error, wherever the digest is checked.
pub proof fn law_wrong_digests_fail_the_burst(s: setup_state::State, digest: Seq<u8>, now: Instant)
    requires
        !setup_state::finished(s),
        setup_state::enabled(s, s.program[s.pos].when),
    ensures
        ({
            let t = setup_state::step_spec(s, setup_state::Ev::Digest(digest), now);
            &&& s.program[s.pos].op is VerifyH && s.head.d.hprime != Some(digest) ==> t.failed
                == Some(Error::EPROTO)
            &&& s.program[s.pos].op is VerifyL && s.head.d.lprime != Some(digest) ==> t.failed
                == Some(Error::EPROTO)
            &&& s.program[s.pos].op is VerifyV && (s.head.d.v matches Some((_, vprime)) ==> vprime
                != digest.take(16)) ==> t.failed == Some(Error::EPROTO)
        }),
{
    reveal(setup_state::outcome);
}

/// Whether step `k` of a program is where the burst fails without an acknowledgment.
pub open spec fn is_ack_gate(program: Seq<Step>, k: int) -> bool {
    0 <= k < program.len() && program[k] == (Step { when: When::Always, op: Op::AckGate })
}

/// What the acknowledgment gate at step `k` makes sure of.
spec fn past_gate(s: setup_state::State, k: int) -> bool {
    &&& s.acks >= 0
    &&& s.head.d.acks >= 0
    &&& s.pos >= 0
    &&& s.pos > k && s.failed is None ==> s.acks > 0
}

proof fn lemma_gate_holds(s: setup_state::State, evs: Seq<(setup_state::Ev, Instant)>, k: int)
    requires
        is_ack_gate(s.program, k),
        past_gate(s, k),
        forall|i: int| 0 <= i < evs.len() ==> honest(#[trigger] evs[i].0),
    ensures
        past_gate(run(s, evs), k),
        run(s, evs).program == s.program,
    decreases evs.len(),
{
    if evs.len() > 0 && !setup_state::finished(s) {
        let t = setup_state::step_spec(s, evs[0].0, evs[0].1);
        law_every_step_is_steady(s, evs[0].0, evs[0].1);
        if s.pos == k {
            reveal(setup_state::internal);
        }
        assert forall|i: int| 0 <= i < evs.skip(1).len() implies honest(
            #[trigger] evs.skip(1)[i].0,
        ) by {
            assert(evs.skip(1)[i] == evs[i + 1]);
        }
        lemma_gate_holds(t, evs.skip(1), k);
    }
}

proof fn lemma_program_has_a_gate(
    p: SetupProfile,
    table: Seq<HeadStep>,
    steps: Seq<(u16, u16)>,
    queued: bool,
) -> (k: int)
    ensures
        is_ack_gate(program::program_spec(p, table, steps, queued), k),
{
    let a = program::opening(p, queued) + program::initialization(p) + program::each(
        program::connector_count(p),
        program::connector_burst(p, table),
    ) + program::finalization(p, steps);
    let b = program::settling(p, queued);
    let k = a.len() + b.len() - 1;
    assert(b.last() == (Step { when: When::Always, op: Op::AckGate }));
    assert(program::program_spec(p, table, steps, queued)[k] == b.last());
    k
}

/// A burst succeeds only where the dock acknowledged the session: whatever the dock answers, a
/// burst that runs to its end without failing has counted an acknowledgment.
pub proof fn law_success_is_acknowledged(
    p: SetupProfile,
    table: Seq<HeadStep>,
    steps: Seq<(u16, u16)>,
    queued: bool,
    ctr: u16,
    evs: Seq<(setup_state::Ev, Instant)>,
)
    requires
        forall|i: int| 0 <= i < evs.len() ==> honest(#[trigger] evs[i].0),
    ensures
        ({
            let t = run(
                setup_state::initial(
                    program::program_spec(p, table, steps, queued),
                    p.edid_ready_reported,
                    ctr,
                ),
                evs,
            );
            setup_state::finished(t) && t.failed is None ==> t.acks > 0
        }),
{
    let k = lemma_program_has_a_gate(p, table, steps, queued);
    lemma_gate_holds(
        setup_state::initial(
            program::program_spec(p, table, steps, queued),
            p.edid_ready_reported,
            ctr,
        ),
        evs,
        k,
    );
}

/// Whether every step of a program satisfies `f`.
pub open spec fn all_steps(s: Seq<Step>, f: spec_fn(Step) -> bool) -> bool {
    forall|k: int| 0 <= k < s.len() ==> f(#[trigger] s[k])
}

pub(crate) proof fn lemma_all_joined(a: Seq<Step>, b: Seq<Step>, f: spec_fn(Step) -> bool)
    requires
        all_steps(a, f),
        all_steps(b, f),
    ensures
        all_steps(a + b, f),
{
}

pub(crate) proof fn lemma_all_each(n: nat, g: spec_fn(int) -> Seq<Step>, f: spec_fn(Step) -> bool)
    requires
        forall|i: int| 0 <= i < n ==> all_steps(#[trigger] g(i), f),
    ensures
        all_steps(program::each(n, g), f),
    decreases n,
{
    if n > 0 {
        lemma_all_each((n - 1) as nat, g, f);
        assert(all_steps(g(n - 1), f));
        lemma_all_joined(program::each((n - 1) as nat, g), g(n - 1), f);
    }
}

/// A step that finalizes a connector is performed only where that connector was authenticated,
/// and one that authenticates or verifies only while the connector is not being skipped.
pub open spec fn guarded_step() -> spec_fn(Step) -> bool {
    |s: Step|
        {
            &&& s.op matches Op::Finalize { connector, .. } ==> s.when == When::Authentic(connector)
            &&& s.op is HeadSend || s.op is Authenticated || s.op is Derive || s.op is VerifyH
                || s.op is VerifyL || s.op is VerifyV ==> s.when is Taken
        }
}

proof fn lemma_opening_is_guarded(p: SetupProfile, queued: bool)
    ensures
        all_steps(program::opening(p, queued), guarded_step()),
        all_steps(program::initialization(p), guarded_step()),
{
    let f = guarded_step();
    lemma_all_each(program::HELLO_DRAINS as nat, program::hello_drain(), f);
    lemma_all_each(program::HELLO_TRIES as nat, program::hello_try(), f);
    lemma_all_each(program::connector_count(p), program::connector_record(p), f);
}

proof fn lemma_message_is_guarded(p: SetupProfile, table: Seq<HeadStep>, c: int, i: int)
    ensures
        all_steps(program::head_message(p, table, c)(i), guarded_step()),
{
    let f = guarded_step();
    let s = table[i];
    assert(all_steps(program::restatement(p, c, i, s), f));
    assert(all_steps(program::after_message(p, c, i, s), f));
    assert(all_steps(program::exchange(p, c, i, s), f));
    assert(all_steps(
        program::sink_gate(c, false, 0) + program::guarded(When::Taken, Op::Derive(c as u8)),
        f,
    ));
}

proof fn lemma_burst_is_guarded(p: SetupProfile, table: Seq<HeadStep>, c: int)
    ensures
        all_steps(program::connector_burst(p, table)(c), guarded_step()),
{
    let f = guarded_step();
    let g = program::head_message(p, table, c);
    assert forall|i: int| 0 <= i < table.len() implies all_steps(#[trigger] g(i), f) by {
        lemma_message_is_guarded(p, table, c, i);
    }
    lemma_all_each(table.len(), g, f);
}

proof fn lemma_finish_is_guarded(p: SetupProfile, steps: Seq<(u16, u16)>, queued: bool)
    ensures
        all_steps(program::finalization(p, steps), guarded_step()),
        all_steps(program::settling(p, queued), guarded_step()),
{
    let f = guarded_step();
    let g = program::finalize_connector(steps);
    assert forall|c: int| 0 <= c < program::connector_count(p) implies all_steps(
        #[trigger] g(c),
        f,
    ) by {
        let h = program::finalize_step(steps, c);
        assert forall|k: int| 0 <= k < steps.len() implies all_steps(#[trigger] h(k), f) by {}
        lemma_all_each(steps.len(), h, f);
    }
    lemma_all_each(program::connector_count(p), g, f);
    lemma_all_each(program::MAX_ROUNDS as nat, program::quiet_round(), f);
}

/// Whether a step is none of the guarded kinds.
spec fn unguarded_step() -> spec_fn(Step) -> bool {
    |s: Step|
        !(s.op is Finalize || s.op is HeadSend || s.op is Authenticated || s.op is Derive
            || s.op is VerifyH || s.op is VerifyL || s.op is VerifyV)
}

proof fn lemma_discover_is_unguarded(c: int)
    ensures
        all_steps(program::discover()(c), unguarded_step()),
{
    let f = unguarded_step();
    lemma_all_each(2, program::early_probe(c), f);
    lemma_all_each(2, program::engage_round(c), f);
    lemma_all_each(program::EDID_POLL_ITERS as nat, program::poll_round(c), f);
    lemma_all_each(program::EDID_RETRIES as nat, program::retry_round(c), f);
    assert(all_steps(program::early_round(c), f));
}

proof fn lemma_discovery_is_guarded(p: SetupProfile)
    ensures
        all_steps(program::discovery(p), guarded_step()),
{
    let f = unguarded_step();
    let n = program::connector_count(p);
    lemma_all_each(n, program::seek(), f);
    lemma_all_each(n, program::triplet(), f);
    lemma_all_each(n, program::engage_known(), f);
    lemma_all_each(2, program::sample(), f);
    lemma_all_each(program::STATUS_SAMPLES as nat, program::sample(), f);
    lemma_all_each(n, program::walk_fetch(), f);
    lemma_all_each(n, program::engage_any(), f);
    assert forall|c: int| 0 <= c < n implies all_steps(#[trigger] program::walk_open(p)(c), f) by {
        lemma_all_each(p.polls_before_open@[c] as nat, program::sample(), f);
    }
    lemma_all_each(n, program::walk_open(p), f);
    lemma_all_each(p.polls_after_opens as nat, program::sample(), f);
    lemma_all_each(n, program::post_edid(), f);
    assert forall|c: int| 0 <= c < n implies all_steps(#[trigger] program::discover()(c), f) by {
        lemma_discover_is_unguarded(c);
    }
    lemma_all_each(n, program::discover(), f);
    assert(all_steps(program::discovery_ordered(p), f));
    assert(all_steps(program::discovery_walk(p), f));
    assert(all_steps(program::discovery_each(p), f));
}

/// Only authenticated connectors are finalized, and no connector is authenticated while it is
/// being skipped, at any point of any burst.
pub proof fn law_only_authenticated_connectors_are_finalized(
    p: SetupProfile,
    table: Seq<HeadStep>,
    steps: Seq<(u16, u16)>,
    queued: bool,
    s: setup_state::State,
    now: Instant,
)
    requires
        s.program == program::program_spec(p, table, steps, queued),
        0 <= s.pos < s.program.len(),
    ensures
        setup_state::action_spec(s, now) matches Action::Finalize { connector, .. }
            ==> setup_state::flag(s.authentic, connector),
        setup_state::action_spec(s, now) is HeadSend ==> !s.head.skipping,
        s.program[s.pos].op is Authenticated && setup_state::enabled(s, s.program[s.pos].when)
            ==> !s.head.skipping,
{
    let f = guarded_step();
    lemma_opening_is_guarded(p, queued);
    let g = program::connector_burst(p, table);
    assert forall|c: int| 0 <= c < program::connector_count(p) implies all_steps(
        #[trigger] g(c),
        f,
    ) by {
        lemma_burst_is_guarded(p, table, c);
    }
    lemma_all_each(program::connector_count(p), g, f);
    lemma_finish_is_guarded(p, steps, queued);
    lemma_discovery_is_guarded(p);
    lemma_all_joined(program::opening(p, queued), program::initialization(p), f);
    lemma_all_joined(
        program::opening(p, queued) + program::initialization(p),
        program::each(program::connector_count(p), g),
        f,
    );
    assert(all_steps(s.program, f));
    assert(f(s.program[s.pos]));
}

} // verus!
