//! Protocol-level laws: statements about whole dialogues, proved from the
//! transition function `spec_feed` and the session loop `spec_session`.

use vstd::prelude::*;
use crate::smtp::{
    spec_feed, spec_session, spec_init, ConnectionModel, MessageModel, State, HELO_START,
    MAIL_START, RCPT_START, DATA_LINE, DOT_LINE, QUIT_LINE, MSG_OK, MSG_SEND_MESSAGE_CONTENT,
    MSG_BYE, MSG_SYNTAX_ERROR, MSG_READY,
};
use crate::text::{spec_starts_with, spec_trim};

verus! {

/// A HELO command line declaring the domain `d`.
pub open spec fn helo_line(d: Seq<char>) -> Seq<char> {
    HELO_START@ + d
}

/// A MAIL FROM command line giving the sender `s`.
pub open spec fn mail_line(s: Seq<char>) -> Seq<char> {
    MAIL_START@ + s
}

/// A RCPT TO command line giving the recipient `r`.
pub open spec fn rcpt_line(r: Seq<char>) -> Seq<char> {
    RCPT_START@ + r
}

/// One RCPT TO command line per recipient.
pub open spec fn rcpt_lines(rs: Seq<Seq<char>>) -> Seq<Seq<char>> {
    rs.map_values(|r: Seq<char>| rcpt_line(r))
}

/// Each value trimmed of surrounding whitespace.
pub open spec fn trimmed_all(rs: Seq<Seq<char>>) -> Seq<Seq<char>> {
    rs.map_values(|r: Seq<char>| spec_trim(r))
}

/// `n` repetitions of the OK response.
pub open spec fn ok_responses(n: nat) -> Seq<Seq<char>> {
    Seq::new(n, |i: int| MSG_OK@)
}

/// Appending a block after a prefix keeps the prefix and leaves the block as
/// the remainder.
proof fn lemma_prefix_concat(p: Seq<char>, x: Seq<char>)
    ensures
        spec_starts_with(p + x, p),
        (p + x).skip(p.len() as int) == x,
{
    assert((p + x).subrange(0, p.len() as int) =~= p);
    assert((p + x).skip(p.len() as int) =~= x);
}

/// The lengths of the command and response literals, and the comparisons
/// between them that the session proofs rely on.
proof fn lemma_command_literals()
    ensures
        HELO_START@.len() == 5,
        MAIL_START@.len() == 10,
        RCPT_START@.len() == 8,
        DATA_LINE@.len() == 4,
        DOT_LINE@.len() == 1,
        QUIT_LINE@.len() == 4,
        MSG_READY@.len() == 9,
        MSG_OK@.len() == 6,
        MSG_SEND_MESSAGE_CONTENT@.len() == 24,
        MSG_BYE@.len() == 7,
        MSG_SYNTAX_ERROR@.len() == 19,
        !spec_starts_with(DATA_LINE@, RCPT_START@),
        !spec_starts_with(QUIT_LINE@, MAIL_START@),
        MSG_OK@ != MSG_BYE@,
        MSG_SEND_MESSAGE_CONTENT@ != MSG_BYE@,
        MSG_SYNTAX_ERROR@ != MSG_BYE@,
        DATA_LINE@ != DOT_LINE@,
        QUIT_LINE@ != DOT_LINE@,
{
    reveal_strlit("HELO ");
    reveal_strlit("MAIL FROM:");
    reveal_strlit("RCPT TO:");
    reveal_strlit("DATA");
    reveal_strlit(".");
    reveal_strlit("QUIT");
    reveal_strlit("220 ready");
    reveal_strlit("250 OK");
    reveal_strlit("354 Send message content");
    reveal_strlit("221 Bye");
    reveal_strlit("500 unexpected line");
}

/// Running the session over `a + b` is running it over `a` and, unless the
/// terminal response already stopped it, continuing over `b`.
proof fn lemma_session_append(m: ConnectionModel, a: Seq<Seq<char>>, b: Seq<Seq<char>>)
    ensures
        ({
            let first = spec_session(m, a);
            let whole = spec_session(m, a + b);
            if first.2 {
                whole == first
            } else {
                let second = spec_session(first.0, b);
                whole == (second.0, first.1 + second.1, second.2)
            }
        }),
    decreases a.len(),
{
    reveal_with_fuel(spec_session, 2);
    if a.len() == 0 {
        assert(a + b =~= b);
        let second = spec_session(m, b);
        assert(spec_session(m, a).1 + second.1 =~= second.1);
    } else {
        assert((a + b).len() > 0);
        assert((a + b)[0] == a[0]);
        let step = spec_feed(m, a[0]);
        assert((a + b).drop_first() =~= a.drop_first() + b);
        lemma_session_append(step.0, a.drop_first(), b);
        let first = spec_session(m, a);
        let firstr = spec_session(step.0, a.drop_first());
        match step.1 {
            Ok(s) => {
                if s.len() == 0 {
                } else if s == MSG_BYE@ {
                } else {
                    if !firstr.2 {
                        let second = spec_session(firstr.0, b);
                        assert(seq![s] + (firstr.1 + second.1) =~= (seq![s] + firstr.1)
                            + second.1);
                    }
                }
            },
            Err(e) => {
                if !firstr.2 {
                    let second = spec_session(firstr.0, b);
                    assert(seq![e] + (firstr.1 + second.1) =~= (seq![e] + firstr.1) + second.1);
                }
            },
        }
    }
}

/// In the state that accepts further recipients or DATA, a run of RCPT TO
/// lines appends each trimmed recipient to the draft, answers OK to each,
/// and leaves everything else unchanged.
proof fn lemma_rcpt_sequence(m: ConnectionModel, rs: Seq<Seq<char>>)
    requires
        m.state is RcptOrData,
    ensures
        ({
            let out = spec_session(m, rcpt_lines(rs));
            &&& out.0 == (ConnectionModel {
                next_recipients: m.next_recipients + trimmed_all(rs),
                ..m
            })
            &&& out.1 == ok_responses(rs.len())
            &&& !out.2
        }),
    decreases rs.len(),
{
    reveal_with_fuel(spec_session, 2);
    lemma_command_literals();
    if rs.len() == 0 {
        assert(rcpt_lines(rs) =~= Seq::<Seq<char>>::empty());
        assert(m.next_recipients + trimmed_all(rs) =~= m.next_recipients);
        assert(ok_responses(0) =~= Seq::<Seq<char>>::empty());
        assert((ConnectionModel { next_recipients: m.next_recipients + trimmed_all(rs), ..m })
            == m);
    } else {
        let lines = rcpt_lines(rs);
        assert(lines[0] == rcpt_line(rs[0]));
        lemma_prefix_concat(RCPT_START@, rs[0]);
        let step = spec_feed(m, lines[0]);
        assert(step.0.next_recipients == m.next_recipients.push(spec_trim(rs[0])));
        assert(step.1 == Ok::<Seq<char>, Seq<char>>(MSG_OK@));
        assert(lines.drop_first() =~= rcpt_lines(rs.drop_first()));
        lemma_rcpt_sequence(step.0, rs.drop_first());
        let rest = spec_session(step.0, lines.drop_first());
        assert(m.next_recipients.push(spec_trim(rs[0])) + trimmed_all(rs.drop_first())
            =~= m.next_recipients + trimmed_all(rs));
        assert(seq![MSG_OK@] + ok_responses(rs.drop_first().len()) =~= ok_responses(rs.len()));
    }
}

/// While awaiting the terminating dot, every other line is appended raw to
/// the draft body, with no response written.
proof fn lemma_data_sequence(m: ConnectionModel, ds: Seq<Seq<char>>)
    requires
        m.state is Dot,
        forall|i: int| 0 <= i < ds.len() ==> ds[i] != DOT_LINE@,
    ensures
        ({
            let out = spec_session(m, ds);
            &&& out.0 == (ConnectionModel { next_data: m.next_data + ds, ..m })
            &&& out.1 == Seq::<Seq<char>>::empty()
            &&& !out.2
        }),
    decreases ds.len(),
{
    reveal_with_fuel(spec_session, 2);
    if ds.len() == 0 {
        assert(m.next_data + ds =~= m.next_data);
        assert((ConnectionModel { next_data: m.next_data + ds, ..m }) == m);
    } else {
        let step = spec_feed(m, ds[0]);
        assert(step.0.next_data == m.next_data.push(ds[0]));
        lemma_data_sequence(step.0, ds.drop_first());
        assert(m.next_data.push(ds[0]) + ds.drop_first() =~= m.next_data + ds);
    }
}

/// A session over a single line: the response of `spec_feed`, written unless
/// empty, stopping only on the terminal response.
proof fn lemma_session_single(m: ConnectionModel, line: Seq<char>)
    ensures
        ({
            let step = spec_feed(m, line);
            match step.1 {
                Ok(s) => if s.len() == 0 {
                    spec_session(m, seq![line]) == (step.0, Seq::<Seq<char>>::empty(), false)
                } else if s == MSG_BYE@ {
                    spec_session(m, seq![line]) == (step.0, seq![s], true)
                } else {
                    spec_session(m, seq![line]) == (step.0, seq![s], false)
                },
                Err(e) => spec_session(m, seq![line]) == (step.0, seq![e], false),
            }
        }),
{
    reveal_with_fuel(spec_session, 2);
    let l = seq![line];
    assert(l.drop_first() =~= Seq::<Seq<char>>::empty());
    let step = spec_feed(m, line);
    match step.1 {
        Ok(s) => {
            if s.len() == 0 {
            } else if s == MSG_BYE@ {
            } else {
                assert(seq![s] + spec_session(step.0, l.drop_first()).1 =~= seq![s]);
            }
        },
        Err(e) => {
            assert(seq![e] + spec_session(step.0, l.drop_first()).1 =~= seq![e]);
        },
    }
}

/// One complete submission cycle: the MAIL FROM line, one or more RCPT TO
/// lines, the DATA line, the raw body lines, and the terminating dot.
pub ghost struct CycleModel {
    pub sender: Seq<char>,
    pub recipients: Seq<Seq<char>>,
    pub data: Seq<Seq<char>>,
}

/// A well-formed cycle: at least one recipient, and no body line equal to
/// the terminating dot.
pub open spec fn cycle_wf(c: CycleModel) -> bool {
    c.recipients.len() >= 1 && (forall|i: int| 0 <= i < c.data.len() ==> c.data[i] != DOT_LINE@)
}

/// The command lines of one cycle.
pub open spec fn cycle_lines(c: CycleModel) -> Seq<Seq<char>> {
    seq![mail_line(c.sender)] + rcpt_lines(c.recipients) + seq![DATA_LINE@] + c.data
        + seq![DOT_LINE@]
}

/// The message that one cycle finalizes.
pub open spec fn message_of_cycle(c: CycleModel) -> MessageModel {
    MessageModel {
        sender: spec_trim(c.sender),
        recipients: trimmed_all(c.recipients),
        data: c.data,
    }
}

/// The responses written during one cycle.
pub open spec fn cycle_responses(c: CycleModel) -> Seq<Seq<char>> {
    seq![MSG_OK@] + ok_responses(c.recipients.len()) + seq![MSG_SEND_MESSAGE_CONTENT@, MSG_OK@]
}

/// The command lines of a run of cycles, in order.
pub open spec fn cycles_lines(cs: Seq<CycleModel>) -> Seq<Seq<char>>
    decreases cs.len(),
{
    if cs.len() == 0 {
        Seq::empty()
    } else {
        cycle_lines(cs[0]) + cycles_lines(cs.drop_first())
    }
}

/// The messages that a run of cycles finalizes, in submission order.
pub open spec fn messages_of_cycles(cs: Seq<CycleModel>) -> Seq<MessageModel> {
    cs.map_values(|c: CycleModel| message_of_cycle(c))
}

/// From a state that expects MAIL FROM, one well-formed cycle finalizes
/// exactly its message, answers OK to each command, the start-data prompt to
/// DATA, and nothing to the body lines, and returns to the state that
/// expects MAIL FROM or QUIT with an empty draft.
proof fn lemma_cycle_run(m: ConnectionModel, c: CycleModel)
    requires
        cycle_wf(c),
        m.state is Mail || m.state is MailOrQuit,
        m.next_recipients == Seq::<Seq<char>>::empty(),
        m.next_data == Seq::<Seq<char>>::empty(),
    ensures
        ({
            let out = spec_session(m, cycle_lines(c));
            &&& out.0 == (ConnectionModel {
                state: State::MailOrQuit,
                messages: m.messages.push(message_of_cycle(c)),
                next_sender: Seq::empty(),
                next_recipients: Seq::empty(),
                next_data: Seq::empty(),
                ..m
            })
            &&& out.1 == cycle_responses(c)
            &&& !out.2
        }),
{
    lemma_command_literals();
    let a1 = seq![mail_line(c.sender)];
    let a2 = rcpt_lines(c.recipients);
    let a3 = seq![DATA_LINE@];
    let a4 = c.data;
    let a5 = seq![DOT_LINE@];

    // The MAIL FROM line: to the state that expects the first recipient.
    lemma_prefix_concat(MAIL_START@, c.sender);
    let m1 = spec_feed(m, mail_line(c.sender)).0;
    lemma_session_single(m, mail_line(c.sender));
    assert(spec_session(m, a1) == (m1, seq![MSG_OK@], false));
    assert(m1.state is Rcpt && m1.next_sender == spec_trim(c.sender));

    // The RCPT TO lines: the first from the state that expects a recipient,
    // the rest from the state that also accepts DATA.
    let rs = c.recipients;
    assert(a2[0] == rcpt_line(rs[0]));
    lemma_prefix_concat(RCPT_START@, rs[0]);
    let m2first = spec_feed(m1, a2[0]).0;
    assert(m2first.state is RcptOrData);
    assert(a2.drop_first() =~= rcpt_lines(rs.drop_first()));
    lemma_rcpt_sequence(m2first, rs.drop_first());
    let m2 = spec_session(m2first, a2.drop_first()).0;
    reveal_with_fuel(spec_session, 2);
    assert(spec_session(m1, a2).0 == m2);
    assert(spec_session(m1, a2).1 =~= ok_responses(rs.len())) by {
        assert(seq![MSG_OK@] + ok_responses(rs.drop_first().len()) =~= ok_responses(rs.len()));
    }
    assert(!spec_session(m1, a2).2);
    assert(m2.next_recipients =~= trimmed_all(rs)) by {
        assert(m2first.next_recipients == m.next_recipients.push(spec_trim(rs[0])));
        assert(m.next_recipients.push(spec_trim(rs[0])) + trimmed_all(rs.drop_first())
            =~= trimmed_all(rs));
    }

    // The DATA line: to the state that collects the body.
    lemma_session_single(m2, DATA_LINE@);
    let m3 = spec_feed(m2, DATA_LINE@).0;
    assert(m3.state is Dot);
    assert(spec_session(m2, a3) == (m3, seq![MSG_SEND_MESSAGE_CONTENT@], false));

    // The body lines: appended raw, nothing written.
    lemma_data_sequence(m3, c.data);
    let m4 = spec_session(m3, a4).0;
    assert(m4.next_data =~= c.data);

    // The terminating dot: the draft becomes a finalized message.
    lemma_session_single(m4, DOT_LINE@);
    let m5 = spec_feed(m4, DOT_LINE@).0;
    assert(spec_session(m4, a5) == (m5, seq![MSG_OK@], false));
    assert(m5.messages == m4.messages.push(
        MessageModel {
            sender: m4.next_sender,
            recipients: m4.next_recipients,
            data: m4.next_data,
        },
    ));
    assert(m4.next_recipients == trimmed_all(rs) && m4.next_data == c.data && m4.next_sender
        == spec_trim(c.sender));
    assert(m5.messages == m.messages.push(message_of_cycle(c)));

    // Glue the five phases together.
    assert(cycle_lines(c) =~= a1 + (a2 + (a3 + (a4 + a5))));
    lemma_session_append(m3, a4, a5);
    let w3 = spec_session(m3, a4 + a5);
    assert(w3 == (m5, Seq::<Seq<char>>::empty() + seq![MSG_OK@], false));
    lemma_session_append(m2, a3, a4 + a5);
    let w2 = spec_session(m2, a3 + (a4 + a5));
    assert(w2 == (m5, seq![MSG_SEND_MESSAGE_CONTENT@] + w3.1, false));
    lemma_session_append(m1, a2, a3 + (a4 + a5));
    let w1 = spec_session(m1, a2 + (a3 + (a4 + a5)));
    assert(w1 == (m5, spec_session(m1, a2).1 + w2.1, false));
    lemma_session_append(m, a1, a2 + (a3 + (a4 + a5)));
    let out = spec_session(m, cycle_lines(c));
    assert(out == (m5, seq![MSG_OK@] + w1.1, false));
    assert(out.1 =~= cycle_responses(c)) by {
        assert(out.1 == seq![MSG_OK@] + (spec_session(m1, a2).1 + (seq![MSG_SEND_MESSAGE_CONTENT@]
            + (Seq::<Seq<char>>::empty() + seq![MSG_OK@]))));
        assert(seq![MSG_OK@] + (ok_responses(rs.len()) + (seq![MSG_SEND_MESSAGE_CONTENT@] + (
        Seq::<Seq<char>>::empty() + seq![MSG_OK@]))) =~= cycle_responses(c));
    }
}

/// From a state that expects MAIL FROM with an empty draft, a run of
/// well-formed cycles finalizes exactly its messages, in order, and never
/// writes the terminal response.
proof fn lemma_cycles_run(m: ConnectionModel, cs: Seq<CycleModel>)
    requires
        m.state is Mail || m.state is MailOrQuit,
        m.next_recipients == Seq::<Seq<char>>::empty(),
        m.next_data == Seq::<Seq<char>>::empty(),
        forall|i: int| 0 <= i < cs.len() ==> cycle_wf(#[trigger] cs[i]),
    ensures
        ({
            let out = spec_session(m, cycles_lines(cs));
            &&& !out.2
            &&& out.0.messages == m.messages + messages_of_cycles(cs)
            &&& out.0.sender_domain == m.sender_domain
            &&& out.0.next_recipients == Seq::<Seq<char>>::empty()
            &&& out.0.next_data == Seq::<Seq<char>>::empty()
            &&& (if cs.len() == 0 {
                out.0 == m
            } else {
                out.0.state is MailOrQuit
            })
        }),
    decreases cs.len(),
{
    reveal_with_fuel(spec_session, 2);
    if cs.len() == 0 {
        assert(cycles_lines(cs) == Seq::<Seq<char>>::empty());
        assert(m.messages + messages_of_cycles(cs) =~= m.messages);
    } else {
        assert(cycle_wf(cs[0]));
        lemma_cycle_run(m, cs[0]);
        let m1 = spec_session(m, cycle_lines(cs[0])).0;
        lemma_cycles_run(m1, cs.drop_first());
        lemma_session_append(m, cycle_lines(cs[0]), cycles_lines(cs.drop_first()));
        let out = spec_session(m, cycles_lines(cs));
        assert(out.0 == spec_session(m1, cycles_lines(cs.drop_first())).0);
        assert(out.0.messages =~= m.messages + messages_of_cycles(cs)) by {
            assert(out.0.messages == m1.messages + messages_of_cycles(cs.drop_first()));
            assert(m1.messages == m.messages.push(message_of_cycle(cs[0])));
            assert(messages_of_cycles(cs.drop_first()) =~= messages_of_cycles(cs).drop_first());
            assert(messages_of_cycles(cs)[0] == message_of_cycle(cs[0]));
            assert(m.messages.push(message_of_cycle(cs[0])) + messages_of_cycles(cs).drop_first()
                =~= m.messages + messages_of_cycles(cs));
        }
    }
}

/// Law: a dialogue of the greeting, one complete submission cycle with two
/// recipients and two body lines, and QUIT finalizes exactly one message
/// holding the trimmed sender, both trimmed recipients in order, and both
/// body lines in order; the declared domain is the trimmed HELO argument;
/// and the response stream is OK for each command, the start-data prompt for
/// DATA, and the terminal response for QUIT.
pub proof fn lemma_single_message_dialogue(
    d: Seq<char>,
    s: Seq<char>,
    r1: Seq<char>,
    r2: Seq<char>,
    l1: Seq<char>,
    l2: Seq<char>,
)
    requires
        l1 != DOT_LINE@,
        l2 != DOT_LINE@,
    ensures
        ({
            let lines = seq![
                helo_line(d),
                mail_line(s),
                rcpt_line(r1),
                rcpt_line(r2),
                DATA_LINE@,
                l1,
                l2,
                DOT_LINE@,
                QUIT_LINE@,
            ];
            let outcome = spec_session(spec_init(), lines);
            &&& outcome.0.state is Done
            &&& outcome.0.sender_domain == spec_trim(d)
            &&& outcome.0.messages == seq![
                MessageModel {
                    sender: spec_trim(s),
                    recipients: seq![spec_trim(r1), spec_trim(r2)],
                    data: seq![l1, l2],
                },
            ]
            &&& outcome.1 == seq![
                MSG_OK@,
                MSG_OK@,
                MSG_OK@,
                MSG_OK@,
                MSG_SEND_MESSAGE_CONTENT@,
                MSG_OK@,
                MSG_BYE@,
            ]
            &&& outcome.2
        }),
{
    lemma_command_literals();
    let c = CycleModel { sender: s, recipients: seq![r1, r2], data: seq![l1, l2] };
    assert(cycle_wf(c));
    let lines = seq![
        helo_line(d),
        mail_line(s),
        rcpt_line(r1),
        rcpt_line(r2),
        DATA_LINE@,
        l1,
        l2,
        DOT_LINE@,
        QUIT_LINE@,
    ];
    assert(rcpt_lines(c.recipients) =~= seq![rcpt_line(r1), rcpt_line(r2)]);
    assert(lines =~= seq![helo_line(d)] + (cycle_lines(c) + seq![QUIT_LINE@]));

    // The greeting line.
    lemma_prefix_concat(HELO_START@, d);
    lemma_session_single(spec_init(), helo_line(d));
    let m1 = spec_feed(spec_init(), helo_line(d)).0;
    assert(m1.state is Mail && m1.sender_domain == spec_trim(d));
    assert(spec_session(spec_init(), seq![helo_line(d)]) == (m1, seq![MSG_OK@], false));

    // The cycle.
    lemma_cycle_run(m1, c);
    let m2 = spec_session(m1, cycle_lines(c)).0;
    assert(m2.state is MailOrQuit);
    assert(m2.messages == Seq::<MessageModel>::empty().push(message_of_cycle(c)));

    // The QUIT line.
    lemma_session_single(m2, QUIT_LINE@);
    let m3 = spec_feed(m2, QUIT_LINE@).0;
    assert(m3.state is Done);
    assert(spec_session(m2, seq![QUIT_LINE@]) == (m3, seq![MSG_BYE@], true));

    // Glue the three parts together.
    lemma_session_append(m1, cycle_lines(c), seq![QUIT_LINE@]);
    let w1 = spec_session(m1, cycle_lines(c) + seq![QUIT_LINE@]);
    assert(w1 == (m3, cycle_responses(c) + seq![MSG_BYE@], true));
    lemma_session_append(spec_init(), seq![helo_line(d)], cycle_lines(c) + seq![QUIT_LINE@]);
    let outcome = spec_session(spec_init(), lines);
    assert(outcome == (m3, seq![MSG_OK@] + w1.1, true));

    assert(outcome.0.messages =~= seq![message_of_cycle(c)]);
    assert(message_of_cycle(c) == MessageModel {
        sender: spec_trim(s),
        recipients: seq![spec_trim(r1), spec_trim(r2)],
        data: seq![l1, l2],
    }) by {
        assert(trimmed_all(c.recipients) =~= seq![spec_trim(r1), spec_trim(r2)]);
    }
    assert(outcome.1 =~= seq![
        MSG_OK@,
        MSG_OK@,
        MSG_OK@,
        MSG_OK@,
        MSG_SEND_MESSAGE_CONTENT@,
        MSG_OK@,
        MSG_BYE@,
    ]) by {
        assert(ok_responses(2) =~= seq![MSG_OK@, MSG_OK@]);
        assert(outcome.1 == seq![MSG_OK@] + (cycle_responses(c) + seq![MSG_BYE@]));
    }
}

/// Law: a dialogue of the greeting, any number of well-formed submission
/// cycles, and QUIT finalizes exactly one message per cycle, in submission
/// order, with the declared domain the trimmed HELO argument; with at least
/// one cycle the session ends in the terminal state. (With no cycle at all,
/// QUIT arrives in the state that expects the first MAIL FROM, where it is a
/// syntax error, so the terminal state is not reached.)
pub proof fn lemma_cycles_yield_messages(d: Seq<char>, cs: Seq<CycleModel>)
    requires
        forall|i: int| 0 <= i < cs.len() ==> cycle_wf(#[trigger] cs[i]),
    ensures
        ({
            let lines = seq![helo_line(d)] + cycles_lines(cs) + seq![QUIT_LINE@];
            let outcome = spec_session(spec_init(), lines);
            &&& outcome.0.messages == messages_of_cycles(cs)
            &&& outcome.0.messages.len() == cs.len()
            &&& outcome.0.sender_domain == spec_trim(d)
            &&& (cs.len() >= 1 ==> outcome.0.state is Done && outcome.2)
        }),
{
    lemma_command_literals();
    let lines = seq![helo_line(d)] + cycles_lines(cs) + seq![QUIT_LINE@];
    assert(lines =~= seq![helo_line(d)] + (cycles_lines(cs) + seq![QUIT_LINE@]));

    // The greeting line.
    lemma_prefix_concat(HELO_START@, d);
    lemma_session_single(spec_init(), helo_line(d));
    let m1 = spec_feed(spec_init(), helo_line(d)).0;
    assert(m1.state is Mail && m1.sender_domain == spec_trim(d));

    // The cycles.
    lemma_cycles_run(m1, cs);
    let run = spec_session(m1, cycles_lines(cs));
    let m2 = run.0;
    assert(m2.messages =~= messages_of_cycles(cs)) by {
        assert(m2.messages == m1.messages + messages_of_cycles(cs));
        assert(Seq::<MessageModel>::empty() + messages_of_cycles(cs) =~= messages_of_cycles(cs));
    }

    // The QUIT line: the terminal response where a message was submitted, a
    // syntax error where none was.
    lemma_session_single(m2, QUIT_LINE@);
    let m3 = spec_feed(m2, QUIT_LINE@).0;

    // Glue the three parts together.
    lemma_session_append(m1, cycles_lines(cs), seq![QUIT_LINE@]);
    lemma_session_append(spec_init(), seq![helo_line(d)], cycles_lines(cs) + seq![QUIT_LINE@]);
    let outcome = spec_session(spec_init(), lines);
    if cs.len() >= 1 {
        assert(m2.state is MailOrQuit);
        assert(m3.state is Done && m3.messages == m2.messages);
        assert(outcome.0 == m3 && outcome.2);
    } else {
        assert(m2 == m1);
        assert(spec_feed(m2, QUIT_LINE@).1 is Err);
        assert(outcome.0 == m2);
    }
}

/// Law: the transition function is deterministic. Identical pairs of
/// connection model and input line always produce identical pairs of next
/// model and response; `feed_line` ensures exactly the result of `spec_feed`,
/// so two calls on equal states and lines agree.
pub proof fn lemma_feed_deterministic(
    m1: ConnectionModel,
    m2: ConnectionModel,
    l1: Seq<char>,
    l2: Seq<char>,
)
    requires
        m1 == m2,
        l1 == l2,
    ensures
        spec_feed(m1, l1) == spec_feed(m2, l2),
{
}

/// Law: once the terminal state is reached, no input line changes the
/// connection again; every further line is answered with the syntax error.
pub proof fn lemma_terminal_state_stable(m: ConnectionModel, line: Seq<char>)
    requires
        m.state is Done,
    ensures
        spec_feed(m, line).0 == m,
        spec_feed(m, line).1 == Err::<Seq<char>, Seq<char>>(MSG_SYNTAX_ERROR@),
{
}

/// Law: once the terminal state is reached, no further run of input lines
/// changes the connection; the declared domain and the finalized messages
/// never change again.
pub proof fn lemma_terminal_session_stable(m: ConnectionModel, lines: Seq<Seq<char>>)
    requires
        m.state is Done,
    ensures
        spec_session(m, lines).0 == m,
    decreases lines.len(),
{
    if lines.len() > 0 {
        lemma_terminal_state_stable(m, lines[0]);
        lemma_terminal_session_stable(m, lines.drop_first());
    }
}

/// Law: a line that matches no command accepted in the current state is
/// answered with the syntax-error response and leaves the whole connection —
/// state, declared domain, finalized messages and draft — unchanged.
pub proof fn lemma_syntax_error_preserves(m: ConnectionModel, line: Seq<char>)
    requires
        spec_feed(m, line).1 is Err,
    ensures
        spec_feed(m, line).0 == m,
        spec_feed(m, line).1 == Err::<Seq<char>, Seq<char>>(MSG_SYNTAX_ERROR@),
{
}

} // verus!
