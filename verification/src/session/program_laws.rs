//! What every setup burst consists of, told kind by kind: which steps of a kind a program holds,
//! and in which order.

use vstd::prelude::*;

use crate::session::program;
use crate::session::program::{HeadStep, Op, SetupProfile, Step, When};
use crate::session::setup_laws;

verus! {

/// The steps of a program whose operations `f` asks for, in their order.
pub open spec fn keep(s: Seq<Step>, f: spec_fn(Op) -> bool) -> Seq<Step>
    decreases s.len(),
{
    if s.len() == 0 {
        seq![]
    } else {
        let before = keep(s.drop_last(), f);
        if f(s.last().op) {
            before.push(s.last())
        } else {
            before
        }
    }
}

broadcast proof fn lemma_keep_joined(a: Seq<Step>, b: Seq<Step>, f: spec_fn(Op) -> bool)
    ensures
        #[trigger] keep(a + b, f) == keep(a, f) + keep(b, f),
    decreases b.len(),
{
    if b.len() == 0 {
        assert(a + b =~= a);
        assert(keep(a, f) + keep(b, f) =~= keep(a, f));
    } else {
        assert((a + b).drop_last() =~= a + b.drop_last());
        lemma_keep_joined(a, b.drop_last(), f);
        assert(keep(a + b, f) =~= keep(a, f) + keep(b, f));
    }
}

broadcast proof fn lemma_keep_guarded(when: When, op: Op, f: spec_fn(Op) -> bool)
    ensures
        #[trigger] keep(program::guarded(when, op), f) == (if f(op) {
            program::guarded(when, op)
        } else {
            seq![]
        }),
{
    let s = program::guarded(when, op);
    assert(s.drop_last() =~= seq![]);
    assert(keep(s.drop_last(), f) =~= seq![]);
    assert(keep(s, f) =~= (if f(op) {
        s
    } else {
        seq![]
    }));
}

broadcast proof fn lemma_keep_plain(op: Op, f: spec_fn(Op) -> bool)
    ensures
        #[trigger] keep(program::plain(op), f) == (if f(op) {
            program::plain(op)
        } else {
            seq![]
        }),
{
    assert(program::plain(op) =~= program::guarded(When::Always, op));
    lemma_keep_guarded(When::Always, op, f);
}

broadcast proof fn lemma_keep_nothing(f: spec_fn(Op) -> bool)
    ensures
        #[trigger] keep(seq![], f) == Seq::<Step>::empty(),
{
}

broadcast group keeping {
    lemma_keep_joined,
    lemma_keep_guarded,
    lemma_keep_plain,
    lemma_keep_nothing,
}

/// Repetitions of equal blocks are equal.
proof fn lemma_each_same(n: nat, g: spec_fn(int) -> Seq<Step>, h: spec_fn(int) -> Seq<Step>)
    requires
        forall|i: int| 0 <= i < n ==> #[trigger] g(i) == h(i),
    ensures
        program::each(n, g) == program::each(n, h),
    decreases n,
{
    if n > 0 {
        lemma_each_same((n - 1) as nat, g, h);
    }
}

/// What is kept of a repetition is what is kept of each of its blocks.
proof fn lemma_keep_each(
    n: nat,
    g: spec_fn(int) -> Seq<Step>,
    f: spec_fn(Op) -> bool,
    h: spec_fn(int) -> Seq<Step>,
)
    requires
        forall|i: int| 0 <= i < n ==> keep(#[trigger] g(i), f) == h(i),
    ensures
        keep(program::each(n, g), f) == program::each(n, h),
    decreases n,
{
    if n > 0 {
        lemma_keep_each((n - 1) as nat, g, f, h);
        lemma_keep_joined(program::each((n - 1) as nat, g), g(n - 1), f);
    }
}

/// Nothing is kept of a repetition whose blocks hold nothing.
proof fn lemma_keep_no_each(n: nat, g: spec_fn(int) -> Seq<Step>, f: spec_fn(Op) -> bool)
    requires
        forall|i: int| 0 <= i < n ==> keep(#[trigger] g(i), f) == Seq::<Step>::empty(),
    ensures
        keep(program::each(n, g), f) == Seq::<Step>::empty(),
    decreases n,
{
    if n > 0 {
        lemma_keep_no_each((n - 1) as nat, g, f);
        lemma_keep_joined(program::each((n - 1) as nat, g), g(n - 1), f);
    }
}

/// A repetition of single steps.
proof fn lemma_each_single(n: nat, g: spec_fn(int) -> Seq<Step>, x: spec_fn(int) -> Step)
    requires
        forall|i: int| 0 <= i < n ==> #[trigger] g(i) == seq![x(i)],
    ensures
        program::each(n, g) == Seq::new(n, x),
    decreases n,
{
    if n > 0 {
        lemma_each_single((n - 1) as nat, g, x);
        assert(program::each(n, g) =~= Seq::new(n, x));
    } else {
        assert(program::each(n, g) =~= Seq::new(n, x));
    }
}

/// Nothing is kept of a program without the operations asked for.
proof fn lemma_keep_none(s: Seq<Step>, f: spec_fn(Op) -> bool)
    requires
        setup_laws::all_steps(s, |x: Step| !f(x.op)),
    ensures
        keep(s, f) == Seq::<Step>::empty(),
    decreases s.len(),
{
    if s.len() > 0 {
        let front = s.drop_last();
        assert forall|k: int| 0 <= k < front.len() implies !f((#[trigger] front[k]).op) by {
            let x = s[k];
            assert((|x: Step| !f(x.op))(x));
        }
        let x = s[s.len() - 1];
        assert((|x: Step| !f(x.op))(x));
        lemma_keep_none(front, f);
    }
}

/// The operations of each part of a burst.
spec fn opening_op(op: Op) -> bool {
    op is Arm || op is HelloQueued || op is HelloTry || op is HelloSent || op is Sweep
        || op is Advance
}

spec fn initial_op(op: Op) -> bool {
    op is Init || op is Sweep || op is Advance || op is ClearHalt || op is Sleep || op is Commit
        || op is ReadState
}

spec fn burst_op(op: Op) -> bool {
    op is Begin || op is Gate || op is Announce || op is Derive || op is Ready || op is HeadSend
        || op is HeadReply || op is HeadMore || op is Hold || op is VerifyH || op is Eks
        || op is VerifyL || op is VerifyV || op is CheckStatus || op is CheckM || op is Tally
        || op is Authenticated || op is Sweep || op is Advance
}

spec fn final_op(op: Op) -> bool {
    op is PostAuth || op is Sweep || op is Finalize || op is Advance
}

spec fn settling_op(op: Op) -> bool {
    op is Flush || op is Commit || op is ReadState || op is Sweep || op is DrainQuiet
        || op is AckGate
}

spec fn discovery_op(op: Op) -> bool {
    op is Live || op is Sweep || op is Sleep || op is ClearEdid || op is StoreEdid
        || op is StartTimer || op is Await || op is OpenStream || op is DiscoverBegin
        || op is EarlyCheck || op is PollOpen || op is PollCheck || op is RetryCheck
        || op is DiscoverEnd
}

spec fn of(kinds: spec_fn(Op) -> bool) -> spec_fn(Step) -> bool {
    |s: Step| kinds(s.op)
}

proof fn lemma_first_parts(p: SetupProfile, queued: bool)
    ensures
        setup_laws::all_steps(program::opening(p, queued), of(|op: Op| opening_op(op))),
        setup_laws::all_steps(program::initialization(p), of(|op: Op| initial_op(op))),
{
    let f = of(|op: Op| opening_op(op));
    setup_laws::lemma_all_each(program::HELLO_DRAINS as nat, program::hello_drain(), f);
    setup_laws::lemma_all_each(program::HELLO_TRIES as nat, program::hello_try(), f);
    let f = of(|op: Op| initial_op(op));
    setup_laws::lemma_all_each(program::connector_count(p), program::connector_record(p), f);
}

proof fn lemma_burst_part(p: SetupProfile, table: Seq<HeadStep>)
    ensures
        setup_laws::all_steps(
            program::each(program::connector_count(p), program::connector_burst(p, table)),
            of(|op: Op| burst_op(op)),
        ),
{
    let f = of(|op: Op| burst_op(op));
    let b = program::connector_burst(p, table);
    assert forall|c: int| 0 <= c < program::connector_count(p) implies setup_laws::all_steps(
        #[trigger] b(c),
        f,
    ) by {
        let g = program::head_message(p, table, c);
        assert forall|i: int| 0 <= i < table.len() implies setup_laws::all_steps(
            #[trigger] g(i),
            f,
        ) by {
            let s = table[i];
            assert(setup_laws::all_steps(program::restatement(p, c, i, s), f));
            assert(setup_laws::all_steps(program::after_message(p, c, i, s), f));
            assert(setup_laws::all_steps(program::exchange(p, c, i, s), f));
        }
        setup_laws::lemma_all_each(table.len(), g, f);
    }
    setup_laws::lemma_all_each(program::connector_count(p), b, f);
}

proof fn lemma_last_parts(p: SetupProfile, steps: Seq<(u16, u16)>, queued: bool)
    ensures
        setup_laws::all_steps(program::finalization(p, steps), of(|op: Op| final_op(op))),
        setup_laws::all_steps(program::settling(p, queued), of(|op: Op| settling_op(op))),
{
    let f = of(|op: Op| final_op(op));
    let g = program::finalize_connector(steps);
    assert forall|c: int| 0 <= c < program::connector_count(p) implies setup_laws::all_steps(
        #[trigger] g(c),
        f,
    ) by {
        let h = program::finalize_step(steps, c);
        assert forall|k: int| 0 <= k < steps.len() implies setup_laws::all_steps(
            #[trigger] h(k),
            f,
        ) by {}
        setup_laws::lemma_all_each(steps.len(), h, f);
    }
    setup_laws::lemma_all_each(program::connector_count(p), g, f);
    let f = of(|op: Op| settling_op(op));
    setup_laws::lemma_all_each(program::MAX_ROUNDS as nat, program::quiet_round(), f);
}

proof fn lemma_discovery_part(p: SetupProfile)
    ensures
        setup_laws::all_steps(program::discovery(p), of(|op: Op| discovery_op(op))),
{
    let f = of(|op: Op| discovery_op(op));
    let n = program::connector_count(p);
    setup_laws::lemma_all_each(n, program::seek(), f);
    setup_laws::lemma_all_each(n, program::triplet(), f);
    setup_laws::lemma_all_each(n, program::engage_known(), f);
    setup_laws::lemma_all_each(2, program::sample(), f);
    setup_laws::lemma_all_each(program::STATUS_SAMPLES as nat, program::sample(), f);
    setup_laws::lemma_all_each(n, program::walk_fetch(), f);
    setup_laws::lemma_all_each(n, program::engage_any(), f);
    assert forall|c: int| 0 <= c < n implies setup_laws::all_steps(
        #[trigger] program::walk_open(p)(c),
        f,
    ) by {
        setup_laws::lemma_all_each(p.polls_before_open@[c] as nat, program::sample(), f);
    }
    setup_laws::lemma_all_each(n, program::walk_open(p), f);
    setup_laws::lemma_all_each(p.polls_after_opens as nat, program::sample(), f);
    setup_laws::lemma_all_each(n, program::post_edid(), f);
    assert forall|c: int| 0 <= c < n implies setup_laws::all_steps(
        #[trigger] program::discover()(c),
        f,
    ) by {
        setup_laws::lemma_all_each(2, program::early_probe(c), f);
        setup_laws::lemma_all_each(2, program::engage_round(c), f);
        setup_laws::lemma_all_each(program::EDID_POLL_ITERS as nat, program::poll_round(c), f);
        setup_laws::lemma_all_each(program::EDID_RETRIES as nat, program::retry_round(c), f);
        assert(setup_laws::all_steps(program::early_round(c), f));
    }
    setup_laws::lemma_all_each(n, program::discover(), f);
    assert(setup_laws::all_steps(program::discovery_ordered(p), f));
    assert(setup_laws::all_steps(program::discovery_walk(p), f));
    assert(setup_laws::all_steps(program::discovery_each(p), f));
}

/// Nothing is kept of a part that has none of the operations asked for.
proof fn lemma_part_holds_none(
    s: Seq<Step>,
    kinds: spec_fn(Op) -> bool,
    f: spec_fn(Op) -> bool,
)
    requires
        setup_laws::all_steps(s, of(kinds)),
        forall|op: Op| #[trigger] kinds(op) ==> !f(op),
    ensures
        keep(s, f) == Seq::<Step>::empty(),
{
    let g = |x: Step| !f(x.op);
    assert forall|k: int| 0 <= k < s.len() implies g(#[trigger] s[k]) by {
        let x = s[k];
        assert(of(kinds)(x));
        assert(kinds(x.op));
    }
    lemma_keep_none(s, f);
}

/// What is kept of a burst is what is kept of its parts, and nothing of a part that has none of
/// the operations asked for.
proof fn lemma_keep_parts(
    p: SetupProfile,
    table: Seq<HeadStep>,
    steps: Seq<(u16, u16)>,
    queued: bool,
    f: spec_fn(Op) -> bool,
)
    ensures
        keep(program::program_spec(p, table, steps, queued), f) == keep(
            program::opening(p, queued),
            f,
        ) + keep(program::initialization(p), f) + keep(
            program::each(program::connector_count(p), program::connector_burst(p, table)),
            f,
        ) + keep(program::finalization(p, steps), f) + keep(program::settling(p, queued), f) + keep(
            program::discovery(p),
            f,
        ),
        (forall|op: Op| #[trigger] opening_op(op) ==> !f(op)) ==> keep(
            program::opening(p, queued),
            f,
        ) == Seq::<Step>::empty(),
        (forall|op: Op| #[trigger] initial_op(op) ==> !f(op)) ==> keep(
            program::initialization(p),
            f,
        ) == Seq::<Step>::empty(),
        (forall|op: Op| #[trigger] burst_op(op) ==> !f(op)) ==> keep(
            program::each(program::connector_count(p), program::connector_burst(p, table)),
            f,
        ) == Seq::<Step>::empty(),
        (forall|op: Op| #[trigger] final_op(op) ==> !f(op)) ==> keep(
            program::finalization(p, steps),
            f,
        ) == Seq::<Step>::empty(),
        (forall|op: Op| #[trigger] settling_op(op) ==> !f(op)) ==> keep(
            program::settling(p, queued),
            f,
        ) == Seq::<Step>::empty(),
        (forall|op: Op| #[trigger] discovery_op(op) ==> !f(op)) ==> keep(
            program::discovery(p),
            f,
        ) == Seq::<Step>::empty(),
{
    broadcast use keeping;

    lemma_first_parts(p, queued);
    lemma_burst_part(p, table);
    lemma_last_parts(p, steps, queued);
    lemma_discovery_part(p);
    if forall|op: Op| #[trigger] opening_op(op) ==> !f(op) {
        let k = |op: Op| opening_op(op);
        assert forall|op: Op| #[trigger] k(op) implies !f(op) by {
            assert(opening_op(op));
        }
        lemma_part_holds_none(program::opening(p, queued), k, f);
    }
    if forall|op: Op| #[trigger] initial_op(op) ==> !f(op) {
        let k = |op: Op| initial_op(op);
        assert forall|op: Op| #[trigger] k(op) implies !f(op) by {
            assert(initial_op(op));
        }
        lemma_part_holds_none(program::initialization(p), k, f);
    }
    if forall|op: Op| #[trigger] burst_op(op) ==> !f(op) {
        let k = |op: Op| burst_op(op);
        assert forall|op: Op| #[trigger] k(op) implies !f(op) by {
            assert(burst_op(op));
        }
        lemma_part_holds_none(
            program::each(program::connector_count(p), program::connector_burst(p, table)),
            k,
            f,
        );
    }
    if forall|op: Op| #[trigger] final_op(op) ==> !f(op) {
        let k = |op: Op| final_op(op);
        assert forall|op: Op| #[trigger] k(op) implies !f(op) by {
            assert(final_op(op));
        }
        lemma_part_holds_none(program::finalization(p, steps), k, f);
    }
    if forall|op: Op| #[trigger] settling_op(op) ==> !f(op) {
        let k = |op: Op| settling_op(op);
        assert forall|op: Op| #[trigger] k(op) implies !f(op) by {
            assert(settling_op(op));
        }
        lemma_part_holds_none(program::settling(p, queued), k, f);
    }
    if forall|op: Op| #[trigger] discovery_op(op) ==> !f(op) {
        let k = |op: Op| discovery_op(op);
        assert forall|op: Op| #[trigger] k(op) implies !f(op) by {
            assert(discovery_op(op));
        }
        lemma_part_holds_none(program::discovery(p), k, f);
    }
}

/// Connectors that a burst configures: those of the dock, four at most.
pub open spec fn configured(p: SetupProfile) -> nat {
    if p.connectors <= 4 {
        p.connectors as nat
    } else {
        4
    }
}

/// A step that is taken whatever happened before.
pub open spec fn always(op: Op) -> Step {
    Step { when: When::Always, op }
}

/// The operations that initialize a dock.
pub open spec fn initializes() -> spec_fn(Op) -> bool {
    |op: Op| op is Init || op is Commit
}

/// The record that initializes connector `c`: it names the connector in its first byte.
pub open spec fn named_record() -> spec_fn(int) -> Step {
    |c: int| always(Op::Init { id: 0x16, sub: 0x2a, prefix: 2, a: c as u8, b: 1 })
}

/// The dock-wide records.
pub open spec fn dock_records() -> Seq<Step> {
    seq![
        always(Op::Init { id: 0x14, sub: 0x30, prefix: 0, a: 0, b: 0 }),
        always(Op::Init { id: 0x15, sub: 0x0b, prefix: 1, a: 1, b: 0 }),
    ]
}

proof fn lemma_initialization_kept(p: SetupProfile)
    ensures
        ({
            let kept = keep(program::initialization(p), initializes());
            let commit = if p.video_commit_point is BeforeConnectorRecords {
                seq![always(Op::Commit)]
            } else {
                seq![]
            };
            &&& p.dock_wide_init ==> kept == dock_records() + commit + Seq::new(
                configured(p),
                named_record(),
            )
            &&& !p.dock_wide_init ==> kept == commit
        }),
{
    broadcast use keeping;

    let f = initializes();
    let x = named_record();
    let h = |c: int| seq![x(c)];
    let n = program::connector_count(p);
    let kept = keep(program::initialization(p), f);
    assert forall|c: int| 0 <= c < n implies keep(#[trigger] program::connector_record(p)(c), f)
        == h(c) by {
        assert(keep(program::connector_record(p)(c), f) =~= h(c));
    }
    lemma_keep_each(n, program::connector_record(p), f, h);
    lemma_each_single(n, h, x);
    assert(n == configured(p));
    let commit = if p.video_commit_point is BeforeConnectorRecords {
        seq![always(Op::Commit)]
    } else {
        seq![]
    };
    if p.dock_wide_init {
        assert(kept =~= dock_records() + commit + Seq::new(n, x));
    } else {
        assert(kept =~= commit);
    }
}

proof fn lemma_settling_kept(p: SetupProfile, queued: bool)
    ensures
        keep(program::settling(p, queued), initializes()) == (if p.video_commit_point
            is AfterFinalize {
            seq![always(Op::Commit)]
        } else {
            seq![]
        }),
{
    broadcast use keeping;

    let f = initializes();
    lemma_keep_no_each(program::MAX_ROUNDS as nat, program::quiet_round(), f);
    assert(keep(program::settling(p, queued), f) =~= (if p.video_commit_point is AfterFinalize {
        seq![always(Op::Commit)]
    } else {
        seq![]
    }));
}

/// The initialization records of a burst, and the commit of the video engine, in the order in
/// which they are sent. A dock that expects the dock-wide records gets the two of them first, and
/// then one record for each of its connectors, which names it, in increasing order; a dock that
/// does not gets none. The engine is committed once, ahead of the connectors' records or after
/// them all.
pub proof fn law_every_connector_is_initialized_by_name(
    p: SetupProfile,
    table: Seq<HeadStep>,
    steps: Seq<(u16, u16)>,
    queued: bool,
)
    ensures
        ({
            let kept = keep(program::program_spec(p, table, steps, queued), initializes());
            let records = Seq::new(configured(p), named_record());
            let commit = seq![always(Op::Commit)];
            &&& p.dock_wide_init && p.video_commit_point is BeforeConnectorRecords ==> kept
                == dock_records() + commit + records
            &&& p.dock_wide_init && p.video_commit_point is AfterFinalize ==> kept
                == dock_records() + records + commit
            &&& !p.dock_wide_init ==> kept == commit
        }),
{
    lemma_keep_parts(p, table, steps, queued, initializes());
    lemma_initialization_kept(p);
    lemma_settling_kept(p, queued);
    let kept = keep(program::program_spec(p, table, steps, queued), initializes());
    let records = Seq::new(configured(p), named_record());
    let commit = seq![always(Op::Commit)];
    if !p.dock_wide_init {
        assert(kept =~= commit);
    } else if p.video_commit_point is BeforeConnectorRecords {
        assert(kept =~= dock_records() + commit + records);
    } else {
        assert(kept =~= dock_records() + records + commit);
    }
}

/// The operations that send a message with a counter of its own, and those that step past one.
pub open spec fn counts() -> spec_fn(Op) -> bool {
    |op: Op|
        op is HelloSent || op is Init || op is HeadSend || op is PostAuth || op is Finalize
            || op is Advance
}

/// A message and the step past its cipher blocks, both taken under one condition.
pub open spec fn sent_and_passed(when: When, op: Op, blocks: int) -> Seq<Step> {
    seq![Step { when, op }, Step { when, op: Op::Advance(blocks as u32) }]
}

/// A connector's initialization record, sent and stepped past.
pub open spec fn record_passed() -> spec_fn(int) -> Seq<Step> {
    |c: int| sent_and_passed(When::Always, named_record()(c).op, 2)
}

/// Authentication message `i` of connector `c`, sent and stepped past: sixteen bytes of content
/// take a cipher block. The eighth message opens the connector's stream.
pub open spec fn message_passed(table: Seq<HeadStep>, c: int) -> spec_fn(int) -> Seq<Step> {
    |i: int|
        sent_and_passed(
            When::Taken,
            Op::HeadSend {
                connector: c as u8,
                index: i as u8,
                opens: i == 7 && table[i].id != 0x26,
            },
            (table[i].len + 15) / 16,
        )
}

/// The authentication messages of connector `c`.
pub open spec fn messages_passed(table: Seq<HeadStep>) -> spec_fn(int) -> Seq<Step> {
    |c: int| program::each(table.len(), message_passed(table, c))
}

/// Finalization step `k` of connector `c`, sent and stepped past where it was authenticated.
pub open spec fn final_passed(steps: Seq<(u16, u16)>, c: int) -> spec_fn(int) -> Seq<Step> {
    |k: int|
        sent_and_passed(
            When::Authentic(c as u8),
            Op::Finalize { id: steps[k].0, sub: steps[k].1, connector: c as u8 },
            2,
        )
}

/// The finalization steps of connector `c`.
pub open spec fn finals_passed(steps: Seq<(u16, u16)>) -> spec_fn(int) -> Seq<Step> {
    |c: int| program::each(steps.len(), final_passed(steps, c))
}

proof fn lemma_opening_counts(p: SetupProfile, queued: bool)
    ensures
        keep(program::opening(p, queued), counts()) == sent_and_passed(
            When::Always,
            Op::HelloSent,
            2,
        ),
        keep(program::settling(p, queued), counts()) == Seq::<Step>::empty(),
{
    broadcast use keeping;

    let f = counts();
    lemma_keep_no_each(program::HELLO_DRAINS as nat, program::hello_drain(), f);
    lemma_keep_no_each(program::HELLO_TRIES as nat, program::hello_try(), f);
    lemma_keep_no_each(program::MAX_ROUNDS as nat, program::quiet_round(), f);
    assert(keep(program::opening(p, queued), f) =~= sent_and_passed(
        When::Always,
        Op::HelloSent,
        2,
    ));
    assert(keep(program::settling(p, queued), f) =~= seq![]);
}

proof fn lemma_initialization_counts(p: SetupProfile)
    ensures
        keep(program::initialization(p), counts()) == (if p.dock_wide_init {
            sent_and_passed(When::Always, dock_records()[0].op, 2) + sent_and_passed(
                When::Always,
                dock_records()[1].op,
                2,
            ) + program::each(configured(p), record_passed())
        } else {
            seq![]
        }),
{
    broadcast use keeping;

    let f = counts();
    let h = record_passed();
    let n = program::connector_count(p);
    assert forall|c: int| 0 <= c < n implies keep(#[trigger] program::connector_record(p)(c), f)
        == h(c) by {
        assert(keep(program::connector_record(p)(c), f) =~= h(c));
    }
    lemma_keep_each(n, program::connector_record(p), f, h);
    let kept = keep(program::initialization(p), f);
    if p.dock_wide_init {
        assert(kept =~= sent_and_passed(When::Always, dock_records()[0].op, 2) + sent_and_passed(
            When::Always,
            dock_records()[1].op,
            2,
        ) + program::each(configured(p), h));
    } else {
        assert(kept =~= seq![]);
    }
}

#[verifier::rlimit(60)]
#[verifier::spinoff_prover]
proof fn lemma_message_counts(p: SetupProfile, table: Seq<HeadStep>, c: int, i: int)
    ensures
        keep(program::head_message(p, table, c)(i), counts()) == message_passed(table, c)(i),
{
    broadcast use keeping;

    let f = counts();
    let s = table[i];
    assert(keep(program::after_message(p, c, i, s), f) =~= seq![]);
    assert(keep(program::restatement(p, c, i, s), f) =~= sent_and_passed(
        When::Taken,
        Op::HeadSend { connector: c as u8, index: i as u8, opens: false },
        (s.len + 15) / 16,
    ));
    assert(keep(program::exchange(p, c, i, s), f) =~= sent_and_passed(
        When::Taken,
        Op::HeadSend { connector: c as u8, index: i as u8, opens: i == 7 },
        (s.len + 15) / 16,
    ));
    assert(keep(program::head_message(p, table, c)(i), f) =~= message_passed(table, c)(i));
}

proof fn lemma_burst_counts(p: SetupProfile, table: Seq<HeadStep>)
    ensures
        keep(
            program::each(program::connector_count(p), program::connector_burst(p, table)),
            counts(),
        ) == program::each(configured(p), messages_passed(table)),
{
    let f = counts();
    let b = program::connector_burst(p, table);
    let h = messages_passed(table);
    let n = program::connector_count(p);
    assert forall|c: int| 0 <= c < n implies keep(#[trigger] b(c), f) == h(c) by {
        broadcast use keeping;

        let g = program::head_message(p, table, c);
        assert forall|i: int| 0 <= i < table.len() implies keep(#[trigger] g(i), f)
            == message_passed(table, c)(i) by {
            lemma_message_counts(p, table, c, i);
        }
        lemma_keep_each(table.len(), g, f, message_passed(table, c));
        assert(keep(b(c), f) =~= h(c));
    }
    lemma_keep_each(n, b, f, h);
    assert(n == configured(p));
}

proof fn lemma_finalization_counts(p: SetupProfile, steps: Seq<(u16, u16)>)
    ensures
        keep(program::finalization(p, steps), counts()) == (if p.per_connector_onehot {
            seq![always(Op::PostAuth)]
        } else {
            seq![]
        }) + (if p.video_on_ctrl_pipe {
            seq![]
        } else {
            program::each(configured(p), finals_passed(steps))
        }),
{
    broadcast use keeping;

    let f = counts();
    let g = program::finalize_connector(steps);
    let h = finals_passed(steps);
    let n = program::connector_count(p);
    assert forall|c: int| 0 <= c < n implies keep(#[trigger] g(c), f) == h(c) by {
        let a = program::finalize_step(steps, c);
        assert forall|k: int| 0 <= k < steps.len() implies keep(#[trigger] a(k), f)
            == final_passed(steps, c)(k) by {
            assert(keep(a(k), f) =~= final_passed(steps, c)(k));
        }
        lemma_keep_each(steps.len(), a, f, final_passed(steps, c));
    }
    lemma_keep_each(n, g, f, h);
    assert(n == configured(p));
    assert(keep(program::finalization(p, steps), f) =~= (if p.per_connector_onehot {
        seq![always(Op::PostAuth)]
    } else {
        seq![]
    }) + (if p.video_on_ctrl_pipe {
        seq![]
    } else {
        program::each(configured(p), h)
    }));
}

/// The messages of a burst ahead of discovery, in their order, and how each is accounted for. The
/// opening comes first, then the initialization records, then every message of the table for each
/// connector in turn, then the dock-wide transition of a dock that is followed step by step, then
/// every finalization step of each connector that was authenticated, unless the dock shares its
/// control pipe. Each is followed by the step past exactly its own cipher blocks, so that no two
/// messages share a counter; the transition, whose length is known once it is sent, steps past
/// itself.
pub proof fn law_every_message_is_sent_and_stepped_past(
    p: SetupProfile,
    table: Seq<HeadStep>,
    steps: Seq<(u16, u16)>,
    queued: bool,
)
    ensures
        keep(program::program_spec(p, table, steps, queued), counts()) == sent_and_passed(
            When::Always,
            Op::HelloSent,
            2,
        ) + (if p.dock_wide_init {
            sent_and_passed(When::Always, dock_records()[0].op, 2) + sent_and_passed(
                When::Always,
                dock_records()[1].op,
                2,
            ) + program::each(configured(p), record_passed())
        } else {
            seq![]
        }) + program::each(configured(p), messages_passed(table)) + (if p.per_connector_onehot {
            seq![always(Op::PostAuth)]
        } else {
            seq![]
        }) + (if p.video_on_ctrl_pipe {
            seq![]
        } else {
            program::each(configured(p), finals_passed(steps))
        }),
{
    lemma_keep_parts(p, table, steps, queued, counts());
    lemma_opening_counts(p, queued);
    lemma_initialization_counts(p);
    lemma_burst_counts(p, table);
    lemma_finalization_counts(p, steps);
    let a = keep(program::opening(p, queued), counts()) + keep(
        program::initialization(p),
        counts(),
    ) + program::each(configured(p), messages_passed(table));
    let b = if p.per_connector_onehot {
        seq![always(Op::PostAuth)]
    } else {
        seq![]
    };
    let c = if p.video_on_ctrl_pipe {
        seq![]
    } else {
        program::each(configured(p), finals_passed(steps))
    };
    let nothing = Seq::<Step>::empty();
    assert(a + (b + c) + nothing + nothing =~= a + b + c);
}

/// The operations that make up a connector's authentication, besides its replies.
pub open spec fn proves() -> spec_fn(Op) -> bool {
    |op: Op|
        op is Begin || op is HeadSend || op is Gate || op is Announce || op is Derive
            || op is Ready || op is VerifyH || op is Eks || op is VerifyL || op is VerifyV
            || op is CheckStatus || op is CheckM || op is Authenticated
}

/// Authentication message `i` of connector `c`, and what is asked of the receiver around it.
pub open spec fn asked(p: SetupProfile, table: Seq<HeadStep>, c: int) -> spec_fn(int) -> Seq<
    Step,
> {
    |i: int|
        {
            let s = table[i];
            let blocks = ((s.len + 15) / 16) as u32;
            let managed = s.id == 0x26;
            let send = program::guarded(
                When::Taken,
                Op::HeadSend { connector: c as u8, index: i as u8, opens: i == 7 && !managed },
            );
            let named = program::guarded(When::Skipped, Op::Announce(c as u8));
            let before = if i == 3 && !p.per_connector_onehot {
                program::guarded(When::Taken, Op::Gate { advance: false, blocks: 0 }) + named
                    + program::guarded(When::Taken, Op::Derive(c as u8))
            } else {
                seq![]
            };
            if managed {
                before + send + (if p.per_connector_onehot {
                    program::guarded(When::Taken, Op::CheckM)
                } else {
                    seq![]
                }) + program::guarded(When::Taken, Op::Announce(c as u8))
            } else {
                before + (if i == 4 || i == 5 {
                    program::guarded(When::Taken, Op::Ready(i as u8))
                } else {
                    seq![]
                }) + send + (if !p.per_connector_onehot {
                    seq![]
                } else if i == 2 {
                    program::guarded(When::Taken, Op::Gate { advance: true, blocks }) + named
                        + program::guarded(When::Taken, Op::VerifyH(c as u8)) + program::guarded(
                        When::Taken,
                        Op::Eks(c as u8),
                    )
                } else if i == 3 {
                    program::guarded(When::Taken, Op::VerifyL(c as u8))
                } else if i == 4 {
                    program::guarded(When::Taken, Op::VerifyV(c as u8))
                } else if i == 5 {
                    program::guarded(When::Taken, Op::CheckStatus)
                } else {
                    seq![]
                })
            }
        }
}

/// The same for the whole of a connector.
pub open spec fn asked_connector(p: SetupProfile, table: Seq<HeadStep>) -> spec_fn(int) -> Seq<
    Step,
> {
    |c: int| program::plain(Op::Begin(c as u8)) + program::each(table.len(), asked(p, table, c)) + program::guarded(
        When::Taken,
        Op::Authenticated(c as u8),
    )
}

#[verifier::rlimit(60)]
#[verifier::spinoff_prover]
proof fn lemma_asked(p: SetupProfile, table: Seq<HeadStep>, c: int, i: int)
    ensures
        keep(program::head_message(p, table, c)(i), proves()) == asked(p, table, c)(i),
{
    broadcast use keeping;

    assert(keep(program::head_message(p, table, c)(i), proves()) =~= asked(p, table, c)(i));
}

/// The authentication of each connector, in turn. Its secrets are drawn first. On a dock followed
/// step by step the receiver's nonce and H' are asked for by the third message, L' by the fourth,
/// V' by the fifth, its verdict by the sixth and M' by the restatement, each before the next message
/// goes out; elsewhere the keys are derived ahead of the fourth. Only after all of them does the
/// connector count as authenticated.
pub proof fn law_every_connector_proves_itself(
    p: SetupProfile,
    table: Seq<HeadStep>,
    steps: Seq<(u16, u16)>,
    queued: bool,
)
    ensures
        keep(program::program_spec(p, table, steps, queued), proves()) == program::each(
            configured(p),
            asked_connector(p, table),
        ),
{
    let f = proves();
    let b = program::connector_burst(p, table);
    let h = asked_connector(p, table);
    let n = program::connector_count(p);
    assert forall|c: int| 0 <= c < n implies keep(#[trigger] b(c), f) == h(c) by {
        broadcast use keeping;

        let g = program::head_message(p, table, c);
        assert forall|i: int| 0 <= i < table.len() implies keep(#[trigger] g(i), f) == asked(
            p,
            table,
            c,
        )(i) by {
            lemma_asked(p, table, c, i);
        }
        lemma_keep_each(table.len(), g, f, asked(p, table, c));
        assert(keep(b(c), f) =~= h(c));
    }
    lemma_keep_each(n, b, f, h);
    lemma_keep_parts(p, table, steps, queued, f);
    assert(n == configured(p));
    assert(keep(program::program_spec(p, table, steps, queued), f) =~= program::each(n, h));
}

/// The operations that send an authentication message and read what answers it.
pub open spec fn listens() -> spec_fn(Op) -> bool {
    |op: Op|
        op is HeadSend || op is HeadReply || op is HeadMore || op is Hold || op is Tally
}

/// Authentication message `i` of connector `c`, and what is read for it.
pub open spec fn heard(p: SetupProfile, table: Seq<HeadStep>, c: int) -> spec_fn(int) -> Seq<
    Step,
> {
    |i: int|
        {
            let s = table[i];
            let managed = s.id == 0x26;
            let onehot = p.per_connector_onehot;
            let push = |want: u8, ms: i64| program::Wait::Push(want, ms);
            let wait = if !onehot {
                program::Wait::Drain(10)
            } else if managed {
                push(0x11, 30)
            } else if i == 0 {
                push(0x03, 30)
            } else if i == 1 {
                push(0x14, 30)
            } else if i == 2 {
                push(0x06, 30)
            } else if i == 3 {
                push(0x0a, 30)
            } else if i == 4 {
                push(0x0c, 30)
            } else if i <= 5 {
                push(0x12, 30)
            } else {
                program::Wait::Echo
            };
            program::guarded(
                When::Taken,
                Op::HeadSend { connector: c as u8, index: i as u8, opens: i == 7 && !managed },
            ) + program::guarded(When::Taken, Op::HeadReply { wait, learn: !managed }) + (if i != 2
                || managed {
                seq![]
            } else if onehot {
                program::guarded(When::Taken, Op::Hold) + program::guarded(
                    When::Taken,
                    Op::HeadMore { wait: push(0x07, 50), learn: false },
                ) + program::guarded(
                    When::Taken,
                    Op::HeadMore { wait: push(0x08, 30), learn: false },
                )
            } else {
                program::guarded(When::Taken, Op::Hold) + program::guarded(
                    When::Taken,
                    Op::HeadMore { wait: push(0x06, p.perhead_rrx_wait_ms), learn: true },
                )
            }) + program::guarded(When::Taken, Op::Tally { mark: !managed })
        }
}

/// The same for the whole of a connector.
pub open spec fn heard_connector(p: SetupProfile, table: Seq<HeadStep>) -> spec_fn(int) -> Seq<
    Step,
> {
    |c: int| program::each(table.len(), heard(p, table, c))
}

#[verifier::rlimit(60)]
#[verifier::spinoff_prover]
proof fn lemma_heard(p: SetupProfile, table: Seq<HeadStep>, c: int, i: int)
    ensures
        keep(program::head_message(p, table, c)(i), listens()) == heard(p, table, c)(i),
{
    broadcast use keeping;

    assert(keep(program::head_message(p, table, c)(i), listens()) =~= heard(p, table, c)(i));
}

/// What is read for each authentication message. On a dock followed step by step the sequence waits
/// for the receiver's own answer: its certificate, its capabilities, its nonce and then H' and the
/// pairing, L', its list with V', its verdict, and M' for the restatement; any other message is
/// waited for until it is echoed. Elsewhere what has come is taken, and the nonce is waited for as
/// long as the profile allows. Every reply is added to the totals.
pub proof fn law_every_message_is_listened_to(
    p: SetupProfile,
    table: Seq<HeadStep>,
    steps: Seq<(u16, u16)>,
    queued: bool,
)
    ensures
        keep(program::program_spec(p, table, steps, queued), listens()) == program::each(
            configured(p),
            heard_connector(p, table),
        ),
{
    let f = listens();
    let b = program::connector_burst(p, table);
    let h = heard_connector(p, table);
    let n = program::connector_count(p);
    assert forall|c: int| 0 <= c < n implies keep(#[trigger] b(c), f) == h(c) by {
        broadcast use keeping;

        let g = program::head_message(p, table, c);
        assert forall|i: int| 0 <= i < table.len() implies keep(#[trigger] g(i), f) == heard(
            p,
            table,
            c,
        )(i) by {
            lemma_heard(p, table, c, i);
        }
        lemma_keep_each(table.len(), g, f, heard(p, table, c));
        assert(keep(b(c), f) =~= h(c));
    }
    lemma_keep_each(n, b, f, h);
    lemma_keep_parts(p, table, steps, queued, f);
    assert(n == configured(p));
    assert(keep(program::program_spec(p, table, steps, queued), f) =~= program::each(n, h));
}

/// The operations that a dock sees once in a burst.
pub open spec fn milestones() -> spec_fn(Op) -> bool {
    |op: Op|
        op is Arm || op is HelloQueued || op is HelloTry || op is HelloSent || op is ClearHalt
            || op is Commit || op is ReadState || op is PostAuth || op is Flush || op is AckGate
}

/// An attempt at the first message.
pub open spec fn attempt() -> spec_fn(int) -> Step {
    |i: int| Step { when: When::Refused, op: Op::HelloTry }
}

proof fn lemma_opening_milestones(p: SetupProfile, queued: bool)
    ensures
        keep(program::opening(p, queued), milestones()) == program::plain(Op::Arm) + (if queued {
            program::plain(Op::HelloQueued)
        } else {
            Seq::new(40, attempt())
        }) + program::plain(Op::HelloSent),
{
    broadcast use keeping;

    let f = milestones();
    let h = |i: int| seq![attempt()(i)];
    lemma_keep_no_each(program::HELLO_DRAINS as nat, program::hello_drain(), f);
    assert forall|i: int| 0 <= i < program::HELLO_TRIES implies keep(
        #[trigger] program::hello_try()(i),
        f,
    ) == h(i) by {
        assert(keep(program::hello_try()(i), f) =~= h(i));
    }
    lemma_keep_each(program::HELLO_TRIES as nat, program::hello_try(), f, h);
    lemma_each_single(program::HELLO_TRIES as nat, h, attempt());
    assert(keep(program::opening(p, queued), f) =~= program::plain(Op::Arm) + (if queued {
        program::plain(Op::HelloQueued)
    } else {
        Seq::new(40, attempt())
    }) + program::plain(Op::HelloSent));
}

proof fn lemma_initialization_milestones(p: SetupProfile)
    ensures
        keep(program::initialization(p), milestones()) == (if p.video_commit_point
            is BeforeConnectorRecords {
            program::plain(Op::ClearHalt(0)) + program::plain(Op::ClearHalt(1)) + program::plain(
                Op::Commit,
            ) + program::plain(Op::ReadState)
        } else {
            seq![]
        }),
{
    broadcast use keeping;

    let f = milestones();
    lemma_keep_no_each(program::connector_count(p), program::connector_record(p), f);
    assert(keep(program::initialization(p), f) =~= (if p.video_commit_point
        is BeforeConnectorRecords {
        program::plain(Op::ClearHalt(0)) + program::plain(Op::ClearHalt(1)) + program::plain(
            Op::Commit,
        ) + program::plain(Op::ReadState)
    } else {
        seq![]
    }));
}

proof fn lemma_finish_milestones(p: SetupProfile, steps: Seq<(u16, u16)>, queued: bool)
    ensures
        keep(program::finalization(p, steps), milestones()) == (if p.per_connector_onehot {
            program::plain(Op::PostAuth)
        } else {
            seq![]
        }),
        keep(program::settling(p, queued), milestones()) == (if queued {
            program::plain(Op::Flush)
        } else {
            seq![]
        }) + (if p.video_commit_point is AfterFinalize {
            program::plain(Op::Commit) + program::plain(Op::ReadState)
        } else {
            seq![]
        }) + program::plain(Op::AckGate),
{
    broadcast use keeping;

    let f = milestones();
    let g = program::finalize_connector(steps);
    assert forall|c: int| 0 <= c < program::connector_count(p) implies keep(#[trigger] g(c), f)
        == Seq::<Step>::empty() by {
        lemma_keep_no_each(steps.len(), program::finalize_step(steps, c), f);
    }
    lemma_keep_no_each(program::connector_count(p), g, f);
    lemma_keep_no_each(program::MAX_ROUNDS as nat, program::quiet_round(), f);
    assert(keep(program::finalization(p, steps), f) =~= (if p.per_connector_onehot {
        program::plain(Op::PostAuth)
    } else {
        seq![]
    }));
    assert(keep(program::settling(p, queued), f) =~= (if queued {
        program::plain(Op::Flush)
    } else {
        seq![]
    }) + (if p.video_commit_point is AfterFinalize {
        program::plain(Op::Commit) + program::plain(Op::ReadState)
    } else {
        seq![]
    }) + program::plain(Op::AckGate));
}

/// The milestones of a burst, in their order. The cipher is armed once, before anything is sealed.
/// The first message is queued, or tried up to forty times while it is refused, and the burst goes
/// on only where it was sent. The video engine is committed once and its state read back: with both
/// halts cleared before the connectors' records, or after finalization. A dock followed step by step
/// is moved on once. What was queued is flushed, and last the dock must have acknowledged the
/// session.
pub proof fn law_milestones_come_in_order(
    p: SetupProfile,
    table: Seq<HeadStep>,
    steps: Seq<(u16, u16)>,
    queued: bool,
)
    ensures
        keep(program::program_spec(p, table, steps, queued), milestones()) == program::plain(
            Op::Arm,
        ) + (if queued {
            program::plain(Op::HelloQueued)
        } else {
            Seq::new(40, attempt())
        }) + program::plain(Op::HelloSent) + (if p.video_commit_point is BeforeConnectorRecords {
            program::plain(Op::ClearHalt(0)) + program::plain(Op::ClearHalt(1)) + program::plain(
                Op::Commit,
            ) + program::plain(Op::ReadState)
        } else {
            seq![]
        }) + (if p.per_connector_onehot {
            program::plain(Op::PostAuth)
        } else {
            seq![]
        }) + (if queued {
            program::plain(Op::Flush)
        } else {
            seq![]
        }) + (if p.video_commit_point is AfterFinalize {
            program::plain(Op::Commit) + program::plain(Op::ReadState)
        } else {
            seq![]
        }) + program::plain(Op::AckGate),
{
    lemma_keep_parts(p, table, steps, queued, milestones());
    lemma_opening_milestones(p, queued);
    lemma_initialization_milestones(p);
    lemma_finish_milestones(p, steps, queued);
    let o = keep(program::opening(p, queued), milestones());
    let i = keep(program::initialization(p), milestones());
    let d = keep(program::finalization(p, steps), milestones());
    let q = if queued {
        program::plain(Op::Flush)
    } else {
        seq![]
    };
    let v = if p.video_commit_point is AfterFinalize {
        program::plain(Op::Commit) + program::plain(Op::ReadState)
    } else {
        seq![]
    };
    let a = program::plain(Op::AckGate);
    let nothing = Seq::<Step>::empty();
    assert(o + i + nothing + d + (q + v + a) + nothing =~= o + i + d + q + v + a);
}

/// The connector a discovery message is for.
pub open spec fn addressee(m: program::Message) -> Option<u8> {
    match m {
        program::Message::Probe(c) => Some(c),
        program::Message::Kick(c) => Some(c),
        program::Message::Fetch(c) => Some(c),
        program::Message::Engage(c) => Some(c),
        program::Message::PostEdid(c) => Some(c),
        _ => None,
    }
}

/// The operations of discovery that are about connector `c`, and the proof that the session holds.
pub open spec fn discovers(c: u8) -> spec_fn(Op) -> bool {
    |op: Op|
        match op {
            Op::AckGate => true,
            Op::Live(m, _) => addressee(m) == Some(c),
            Op::StoreEdid { connector, .. } => connector == c,
            Op::OpenStream(h) => h == c,
            Op::DiscoverEnd(h) => h == c,
            _ => false,
        }
}

/// What is kept of a repetition of which only block `c` holds anything.
proof fn lemma_keep_only(n: nat, g: spec_fn(int) -> Seq<Step>, f: spec_fn(Op) -> bool, c: int)
    requires
        forall|i: int| 0 <= i < n && i != c ==> keep(#[trigger] g(i), f) == Seq::<Step>::empty(),
    ensures
        0 <= c < n ==> keep(program::each(n, g), f) == keep(g(c), f),
        !(0 <= c < n) ==> keep(program::each(n, g), f) == Seq::<Step>::empty(),
    decreases n,
{
    if n > 0 {
        lemma_keep_only((n - 1) as nat, g, f, c);
        lemma_keep_joined(program::each((n - 1) as nat, g), g(n - 1), f);
        let a = keep(program::each((n - 1) as nat, g), f);
        let b = keep(g(n - 1), f);
        let nothing = Seq::<Step>::empty();
        assert(a + nothing =~= a);
        assert(nothing + b =~= b);
    }
}

/// A message that counts, whatever happened before.
pub open spec fn told(m: program::Message) -> Seq<Step> {
    program::plain(Op::Live(m, program::Account::Counted))
}

/// A message that is the connector's own, under a condition.
pub open spec fn tried(when: When, m: program::Message) -> Seq<Step> {
    program::guarded(when, Op::Live(m, program::Account::Local))
}

#[verifier::rlimit(60)]
#[verifier::spinoff_prover]
proof fn lemma_ordered_discovers(p: SetupProfile, c: u8)
    ensures
        c < configured(p) ==> keep(program::discovery_ordered(p), discovers(c)) == told(
            program::Message::Probe(c),
        ) + told(program::Message::Kick(c)) + told(program::Message::Probe(c)) + told(
            program::Message::Fetch(c),
        ) + program::plain(Op::StoreEdid { connector: c, defer: true }) + program::guarded(
            When::Known(c),
            Op::Live(program::Message::Engage(c), program::Account::Counted),
        ) + told(program::Message::Probe(c)),
        c >= configured(p) ==> keep(program::discovery_ordered(p), discovers(c))
            == Seq::<Step>::empty(),
{
    broadcast use keeping;

    let f = discovers(c);
    let n = program::connector_count(p);
    lemma_keep_only(n, program::seek(), f, c as int);
    lemma_keep_only(n, program::triplet(), f, c as int);
    lemma_keep_only(n, program::engage_known(), f, c as int);
    lemma_keep_no_each(2, program::sample(), f);
    lemma_keep_no_each(program::STATUS_SAMPLES as nat, program::sample(), f);
    let kept = keep(program::discovery_ordered(p), f);
    if c < configured(p) {
        assert(kept =~= told(program::Message::Probe(c)) + told(program::Message::Kick(c)) + told(
            program::Message::Probe(c),
        ) + told(program::Message::Fetch(c)) + program::plain(
            Op::StoreEdid { connector: c, defer: true },
        ) + program::guarded(
            When::Known(c),
            Op::Live(program::Message::Engage(c), program::Account::Counted),
        ) + told(program::Message::Probe(c)));
    } else {
        assert(kept =~= seq![]);
    }
}

#[verifier::rlimit(60)]
#[verifier::spinoff_prover]
proof fn lemma_walk_discovers(p: SetupProfile, c: u8)
    ensures
        c < configured(p) ==> keep(program::discovery_walk(p), discovers(c)) == told(
            program::Message::Probe(c),
        ) + told(program::Message::Fetch(c)) + program::plain(
            Op::StoreEdid { connector: c, defer: false },
        ) + told(program::Message::Engage(c)) + program::plain(Op::OpenStream(c)) + told(
            program::Message::PostEdid(c),
        ),
        c >= configured(p) ==> keep(program::discovery_walk(p), discovers(c))
            == Seq::<Step>::empty(),
{
    broadcast use keeping;

    let f = discovers(c);
    let n = program::connector_count(p);
    lemma_keep_only(n, program::walk_fetch(), f, c as int);
    lemma_keep_only(n, program::engage_any(), f, c as int);
    assert forall|i: int| 0 <= i < n implies keep(#[trigger] program::walk_open(p)(i), f) == (if i
        == c {
        program::plain(Op::OpenStream(c))
    } else {
        seq![]
    }) by {
        lemma_keep_no_each(p.polls_before_open@[i] as nat, program::sample(), f);
        assert(keep(program::walk_open(p)(i), f) =~= (if i == c {
            program::plain(Op::OpenStream(c))
        } else {
            seq![]
        }));
    }
    lemma_keep_only(n, program::walk_open(p), f, c as int);
    lemma_keep_no_each(p.polls_after_opens as nat, program::sample(), f);
    lemma_keep_only(n, program::post_edid(), f, c as int);
    let kept = keep(program::discovery_walk(p), f);
    if c < configured(p) {
        assert(kept =~= told(program::Message::Probe(c)) + told(program::Message::Fetch(c))
            + program::plain(Op::StoreEdid { connector: c, defer: false }) + told(
            program::Message::Engage(c),
        ) + program::plain(Op::OpenStream(c)) + told(program::Message::PostEdid(c)));
    } else {
        assert(kept =~= seq![]);
    }
}

/// A readiness poll of connector `c`: the last of every eight also asks whether it is there.
pub open spec fn polled(c: u8) -> spec_fn(int) -> Seq<Step> {
    |i: int|
        if i % 8 == 7 {
            tried(When::Polling(c), program::Message::Probe(c))
        } else {
            seq![]
        }
}

/// A further fetch of connector `c`.
pub open spec fn fetched_again(c: u8) -> spec_fn(int) -> Step {
    |i: int|
        Step {
            when: When::Retrying(c),
            op: Op::Live(program::Message::Fetch(c), program::Account::Local),
        }
}

/// The discovery of connector `c` by itself: two probes, a kick and a fetch while nothing is known,
/// two engagements, 250 polls, 24 further fetches, and the query for its capabilities.
pub open spec fn discovered(c: u8) -> Seq<Step> {
    tried(When::Early(c), program::Message::Probe(c)) + tried(
        When::Early(c),
        program::Message::Probe(c),
    ) + tried(When::Early(c), program::Message::Kick(c)) + tried(
        When::Early(c),
        program::Message::Fetch(c),
    ) + tried(When::Working(c), program::Message::Engage(c)) + tried(
        When::Working(c),
        program::Message::Engage(c),
    ) + program::each(250, polled(c)) + Seq::new(24, fetched_again(c)) + tried(
        When::Working(c),
        program::Message::PostEdid(c),
    ) + program::guarded(When::Candidate(c), Op::DiscoverEnd(c))
}

#[verifier::rlimit(60)]
#[verifier::spinoff_prover]
proof fn lemma_discover_discovers(c: u8)
    ensures
        keep(program::discover()(c as int), discovers(c)) == discovered(c),
{
    broadcast use keeping;

    let f = discovers(c);
    let k = c as int;
    reveal_with_fuel(program::each, 3);
    let early = tried(When::Early(c), program::Message::Probe(c));
    assert(keep(program::early_probe(k)(0), f) =~= early);
    assert(keep(program::early_probe(k)(1), f) =~= early);
    assert(keep(program::each(2, program::early_probe(k)), f) =~= early + early);
    let engage = tried(When::Working(c), program::Message::Engage(c));
    assert(keep(program::engage_round(k)(0), f) =~= engage);
    assert(keep(program::engage_round(k)(1), f) =~= engage);
    assert(keep(program::each(2, program::engage_round(k)), f) =~= engage + engage);
    let h = polled(c);
    assert forall|i: int| 0 <= i < 250 implies keep(#[trigger] program::poll_round(k)(i), f)
        == h(i) by {
        assert(keep(program::poll_round(k)(i), f) =~= h(i));
    }
    lemma_keep_each(250, program::poll_round(k), f, h);
    let h = |i: int| seq![fetched_again(c)(i)];
    assert forall|i: int| 0 <= i < 24 implies keep(#[trigger] program::retry_round(k)(i), f)
        == h(i) by {
        assert(keep(program::retry_round(k)(i), f) =~= h(i));
    }
    lemma_keep_each(24, program::retry_round(k), f, h);
    lemma_each_single(24, h, fetched_again(c));
    assert(keep(program::early_round(k), f) =~= early + early + tried(
        When::Early(c),
        program::Message::Kick(c),
    ) + tried(When::Early(c), program::Message::Fetch(c)));
    assert(keep(program::discover()(k), f) =~= discovered(c));
}

proof fn lemma_others_discover_nothing(i: int, c: u8)
    requires
        0 <= i < 4,
        i != c,
    ensures
        keep(program::discover()(i), discovers(c)) == Seq::<Step>::empty(),
{
    broadcast use keeping;

    let f = discovers(c);
    lemma_keep_no_each(2, program::early_probe(i), f);
    lemma_keep_no_each(2, program::engage_round(i), f);
    assert forall|k: int| 0 <= k < program::EDID_POLL_ITERS implies keep(
        #[trigger] program::poll_round(i)(k),
        f,
    ) == Seq::<Step>::empty() by {
        assert(keep(program::poll_round(i)(k), f) =~= seq![]);
    }
    lemma_keep_no_each(program::EDID_POLL_ITERS as nat, program::poll_round(i), f);
    lemma_keep_no_each(program::EDID_RETRIES as nat, program::retry_round(i), f);
    assert(keep(program::early_round(i), f) =~= seq![]);
    assert(keep(program::discover()(i), f) =~= seq![]);
}

proof fn lemma_each_discovers(p: SetupProfile, c: u8)
    ensures
        c < configured(p) ==> keep(program::discovery_each(p), discovers(c)) == discovered(c),
        c >= configured(p) ==> keep(program::discovery_each(p), discovers(c))
            == Seq::<Step>::empty(),
{
    let f = discovers(c);
    let n = program::connector_count(p);
    assert forall|i: int| 0 <= i < n && i != c implies keep(#[trigger] program::discover()(i), f)
        == Seq::<Step>::empty() by {
        lemma_others_discover_nothing(i, c);
    }
    lemma_keep_only(n, program::discover(), f, c as int);
    lemma_discover_discovers(c);
    let x = Op::Live(program::Message::Heartbeat, program::Account::Silent);
    let y = Op::Live(program::Message::Query(0), program::Account::Silent);
    let e = program::each(n, program::discover());
    lemma_keep_plain(x, f);
    lemma_keep_plain(y, f);
    lemma_keep_joined(program::plain(x), program::plain(y), f);
    lemma_keep_joined(program::plain(x) + program::plain(y), e, f);
    let d = keep(e, f);
    let nothing = Seq::<Step>::empty();
    assert(nothing + nothing + d =~= d);
}

/// What discovery does about connector `c`.
pub open spec fn found(p: SetupProfile, c: u8) -> Seq<Step> {
    if c >= configured(p) {
        seq![]
    } else if p.per_connector_onehot {
        told(program::Message::Probe(c)) + told(program::Message::Kick(c)) + told(
            program::Message::Probe(c),
        ) + told(program::Message::Fetch(c)) + program::plain(
            Op::StoreEdid { connector: c, defer: true },
        ) + program::guarded(
            When::Known(c),
            Op::Live(program::Message::Engage(c), program::Account::Counted),
        ) + told(program::Message::Probe(c))
    } else if p.video_on_ctrl_pipe {
        told(program::Message::Probe(c)) + told(program::Message::Fetch(c)) + program::plain(
            Op::StoreEdid { connector: c, defer: false },
        ) + told(program::Message::Engage(c)) + program::plain(Op::OpenStream(c)) + told(
            program::Message::PostEdid(c),
        )
    } else {
        discovered(c)
    }
}

proof fn lemma_discovery_finds(p: SetupProfile, c: u8)
    ensures
        keep(program::discovery(p), discovers(c)) == found(p, c),
{
    if p.per_connector_onehot {
        lemma_ordered_discovers(p, c);
    } else if p.video_on_ctrl_pipe {
        lemma_walk_discovers(p, c);
    } else {
        lemma_each_discovers(p, c);
    }
}

proof fn lemma_settling_discovers(p: SetupProfile, queued: bool, c: u8)
    ensures
        keep(program::settling(p, queued), discovers(c)) == program::plain(Op::AckGate),
{
    broadcast use keeping;

    let f = discovers(c);
    lemma_keep_no_each(program::MAX_ROUNDS as nat, program::quiet_round(), f);
    assert(keep(program::settling(p, queued), f) =~= program::plain(Op::AckGate));
}

/// Every connector is discovered, by its own messages and into its own place, once the dock has
/// acknowledged the session; a connector the dock does not have is not. A dock followed step by
/// step is probed, kicked, probed and fetched, and its EDID stored, engaged where one came, and
/// probed again. One whose video shares the control pipe is probed and fetched and its EDID stored,
/// engaged, its stream opened, and asked for its capabilities. On any other each connector is
/// discovered from end to end.
pub proof fn law_every_connector_is_discovered(
    p: SetupProfile,
    table: Seq<HeadStep>,
    steps: Seq<(u16, u16)>,
    queued: bool,
    c: u8,
)
    ensures
        keep(program::program_spec(p, table, steps, queued), discovers(c)) == program::plain(
            Op::AckGate,
        ) + found(p, c),
{
    let f = discovers(c);
    lemma_keep_parts(p, table, steps, queued, f);
    lemma_discovery_finds(p, c);
    lemma_settling_discovers(p, queued, c);
    let a = program::plain(Op::AckGate);
    let d = found(p, c);
    let nothing = Seq::<Step>::empty();
    assert(nothing + nothing + nothing + nothing + a + d =~= a + d);
}

/// The messages that are for no connector.
pub open spec fn asks_the_dock() -> spec_fn(Op) -> bool {
    |op: Op|
        op matches Op::Live(m, _) && (m is Query || m is Rtc || m is Hello || m is Heartbeat)
}

/// A status query.
pub open spec fn status_query() -> spec_fn(int) -> Step {
    |i: int| always(Op::Live(program::Message::Query(0x000c), program::Account::Counted))
}

/// The status queries ahead of each connector's stream.
pub open spec fn queries_before(p: SetupProfile) -> spec_fn(int) -> Seq<Step> {
    |c: int| Seq::new(p.polls_before_open@[c] as nat, status_query())
}

/// The status queries while a connector's readiness is polled.
pub open spec fn queries_while_polling() -> spec_fn(int) -> Seq<Step> {
    |c: int|
        Seq::new(
            250,
            |i: int|
                Step {
                    when: When::Polling(c as u8),
                    op: Op::Live(program::Message::Query(0x000c), program::Account::Local),
                },
        )
}

proof fn lemma_samples_ask(n: nat)
    ensures
        keep(program::each(n, program::sample()), asks_the_dock()) == Seq::new(n, status_query()),
{
    broadcast use keeping;

    let f = asks_the_dock();
    let h = |i: int| seq![status_query()(i)];
    assert forall|i: int| 0 <= i < n implies keep(#[trigger] program::sample()(i), f) == h(i) by {
        assert(keep(program::sample()(i), f) =~= h(i));
    }
    lemma_keep_each(n, program::sample(), f, h);
    lemma_each_single(n, h, status_query());
}

proof fn lemma_ordered_asks(p: SetupProfile)
    ensures
        keep(program::discovery_ordered(p), asks_the_dock()) == told(program::Message::Query(0))
            + Seq::new(2, status_query()) + told(program::Message::Rtc) + Seq::new(
            13,
            status_query(),
        ),
{
    broadcast use keeping;

    let f = asks_the_dock();
    let n = program::connector_count(p);
    lemma_keep_no_each(n, program::seek(), f);
    lemma_keep_no_each(n, program::triplet(), f);
    lemma_keep_no_each(n, program::engage_known(), f);
    lemma_samples_ask(2);
    lemma_samples_ask(13);
    assert(keep(program::discovery_ordered(p), f) =~= told(program::Message::Query(0)) + Seq::new(
        2,
        status_query(),
    ) + told(program::Message::Rtc) + Seq::new(13, status_query()));
}

proof fn lemma_walk_asks(p: SetupProfile)
    ensures
        keep(program::discovery_walk(p), asks_the_dock()) == told(program::Message::Hello)
            + program::each(configured(p), queries_before(p)) + Seq::new(
            p.polls_after_opens as nat,
            status_query(),
        ),
{
    broadcast use keeping;

    let f = asks_the_dock();
    let n = program::connector_count(p);
    let h = queries_before(p);
    lemma_keep_no_each(n, program::walk_fetch(), f);
    lemma_keep_no_each(n, program::engage_any(), f);
    lemma_keep_no_each(n, program::post_edid(), f);
    assert forall|c: int| 0 <= c < n implies keep(#[trigger] program::walk_open(p)(c), f) == h(
        c,
    ) by {
        lemma_samples_ask(p.polls_before_open@[c] as nat);
        assert(keep(program::walk_open(p)(c), f) =~= h(c));
    }
    lemma_keep_each(n, program::walk_open(p), f, h);
    lemma_samples_ask(p.polls_after_opens as nat);
    let before = program::each(configured(p), h);
    let after = Seq::new(p.polls_after_opens as nat, status_query());
    let nothing = Seq::<Step>::empty();
    assert(keep(program::discovery_walk(p), f) =~= nothing + told(program::Message::Hello) + nothing
        + before + after + nothing);
}

proof fn lemma_discover_asks(c: int)
    requires
        0 <= c < 4,
    ensures
        keep(program::discover()(c), asks_the_dock()) == queries_while_polling()(c),
{
    broadcast use keeping;

    let f = asks_the_dock();
    let x = |i: int|
        Step {
            when: When::Polling(c as u8),
            op: Op::Live(program::Message::Query(0x000c), program::Account::Local),
        };
    let h = |i: int| seq![x(i)];
    lemma_keep_no_each(2, program::early_probe(c), f);
    lemma_keep_no_each(2, program::engage_round(c), f);
    assert forall|i: int| 0 <= i < 250 implies keep(#[trigger] program::poll_round(c)(i), f) == h(
        i,
    ) by {
        assert(keep(program::poll_round(c)(i), f) =~= h(i));
    }
    lemma_keep_each(250, program::poll_round(c), f, h);
    lemma_each_single(250, h, x);
    lemma_keep_no_each(24, program::retry_round(c), f);
    assert(keep(program::early_round(c), f) =~= seq![]);
    assert(keep(program::discover()(c), f) =~= Seq::new(250, x));
    assert(Seq::new(250, x) =~= queries_while_polling()(c));
}

proof fn lemma_each_asks(p: SetupProfile)
    ensures
        keep(program::discovery_each(p), asks_the_dock()) == seq![
            always(Op::Live(program::Message::Heartbeat, program::Account::Silent)),
            always(Op::Live(program::Message::Query(0), program::Account::Silent)),
        ] + program::each(configured(p), queries_while_polling()),
{
    broadcast use keeping;

    let f = asks_the_dock();
    let n = program::connector_count(p);
    let h = queries_while_polling();
    assert forall|c: int| 0 <= c < n implies keep(#[trigger] program::discover()(c), f) == h(c) by {
        lemma_discover_asks(c);
    }
    lemma_keep_each(n, program::discover(), f, h);
    assert(keep(program::discovery_each(p), f) =~= seq![
        always(Op::Live(program::Message::Heartbeat, program::Account::Silent)),
        always(Op::Live(program::Message::Query(0), program::Account::Silent)),
    ] + program::each(configured(p), h));
}

/// What the dock itself is asked while its connectors are discovered, and nothing before. A dock
/// followed step by step is queried once, sampled twice, given the time, and sampled thirteen times
/// more. One whose video shares the control pipe is greeted again, and sampled as often as its
/// profile says ahead of each stream and after the last. Any other is kept alive and queried, and
/// sampled in each poll of each connector.
pub proof fn law_the_dock_is_asked_while_discovering(
    p: SetupProfile,
    table: Seq<HeadStep>,
    steps: Seq<(u16, u16)>,
    queued: bool,
)
    ensures
        keep(program::program_spec(p, table, steps, queued), asks_the_dock()) == (
        if p.per_connector_onehot {
            told(program::Message::Query(0)) + Seq::new(2, status_query()) + told(
                program::Message::Rtc,
            ) + Seq::new(13, status_query())
        } else if p.video_on_ctrl_pipe {
            told(program::Message::Hello) + program::each(configured(p), queries_before(p))
                + Seq::new(p.polls_after_opens as nat, status_query())
        } else {
            seq![
                always(Op::Live(program::Message::Heartbeat, program::Account::Silent)),
                always(Op::Live(program::Message::Query(0), program::Account::Silent)),
            ] + program::each(configured(p), queries_while_polling())
        }),
{
    lemma_keep_parts(p, table, steps, queued, asks_the_dock());
    if p.per_connector_onehot {
        lemma_ordered_asks(p);
    } else if p.video_on_ctrl_pipe {
        lemma_walk_asks(p);
    } else {
        lemma_each_asks(p);
    }
    let d = keep(program::discovery(p), asks_the_dock());
    let nothing = Seq::<Step>::empty();
    assert(nothing + nothing + nothing + nothing + nothing + d =~= d);
}

/// The operations that touch the video engine, and the pauses between them.
pub open spec fn paces() -> spec_fn(Op) -> bool {
    |op: Op| op is ClearHalt || op is Commit || op is ReadState || op is Sleep
}

/// Where the video engine is committed ahead of the connectors, its two endpoints are cleared
/// thirteen milliseconds apart, and three pass before the connectors' records.
pub proof fn law_the_engine_is_given_its_time(p: SetupProfile)
    ensures
        keep(program::initialization(p), paces()) == (if p.video_commit_point
            is BeforeConnectorRecords {
            seq![
                always(Op::ClearHalt(0)),
                always(Op::Sleep(13)),
                always(Op::ClearHalt(1)),
                always(Op::Commit),
                always(Op::ReadState),
                always(Op::Sleep(3)),
            ]
        } else {
            seq![]
        }),
{
    broadcast use keeping;

    let f = paces();
    lemma_keep_no_each(program::connector_count(p), program::connector_record(p), f);
    assert(keep(program::initialization(p), f) =~= (if p.video_commit_point
        is BeforeConnectorRecords {
        seq![
            always(Op::ClearHalt(0)),
            always(Op::Sleep(13)),
            always(Op::ClearHalt(1)),
            always(Op::Commit),
            always(Op::ReadState),
            always(Op::Sleep(3)),
        ]
    } else {
        seq![]
    }));
}

/// The operations that read replies once everything has been sent.
pub open spec fn reads_out() -> spec_fn(Op) -> bool {
    |op: Op| op is Sweep || op is DrainQuiet || op is AckGate
}

/// A round of draining.
pub open spec fn restless_round() -> spec_fn(int) -> Step {
    |i: int| Step { when: When::Restless, op: Op::DrainQuiet }
}

/// Once everything has been sent, the replies are read up to the echo of counter eight, and
/// then for sixteen rounds or until a round brings none, before it is asked whether any was an
/// acknowledgment.
pub proof fn law_replies_are_read_out(p: SetupProfile, queued: bool)
    ensures
        keep(program::settling(p, queued), reads_out()) == program::plain(
            Op::Sweep { wait: program::Wait::EchoOf(0x08), mark: false },
        ) + Seq::new(16, restless_round()) + program::plain(Op::AckGate),
{
    broadcast use keeping;

    let f = reads_out();
    let h = |i: int| seq![restless_round()(i)];
    assert forall|i: int| 0 <= i < 16 implies keep(#[trigger] program::quiet_round()(i), f) == h(
        i,
    ) by {
        assert(keep(program::quiet_round()(i), f) =~= h(i));
    }
    lemma_keep_each(16, program::quiet_round(), f, h);
    lemma_each_single(16, h, restless_round());
    assert(keep(program::settling(p, queued), f) =~= program::plain(
        Op::Sweep { wait: program::Wait::EchoOf(0x08), mark: false },
    ) + Seq::new(16, restless_round()) + program::plain(Op::AckGate));
}

/// Whether a pause lasts as long as it should: a tenth of a second between the steps that rouse a
/// connector, and a fiftieth between polls.
pub open spec fn paced_step() -> spec_fn(Step) -> bool {
    |s: Step|
        s.op matches Op::Sleep(ms) ==> ms == (if s.when is Early || s.when is Working {
            100int
        } else {
            20
        })
}

/// The discovery of a connector keeps its pace.
pub proof fn law_discoveries_are_paced(c: int)
    ensures
        setup_laws::all_steps(program::discover()(c), paced_step()),
{
    let f = paced_step();
    setup_laws::lemma_all_each(2, program::early_probe(c), f);
    setup_laws::lemma_all_each(2, program::engage_round(c), f);
    setup_laws::lemma_all_each(program::EDID_POLL_ITERS as nat, program::poll_round(c), f);
    setup_laws::lemma_all_each(program::EDID_RETRIES as nat, program::retry_round(c), f);
    assert(setup_laws::all_steps(program::early_round(c), f));
}

} // verus!
