//! The protocol core: a state machine that parses one client line at a time,
//! accumulates message drafts, and finalizes them, plus the pure session loop
//! that drives it over a sequence of input lines.

use vstd::prelude::*;
use vstd::string::StrSliceExecFns;
use vstd::string::StringExecFns;
use crate::text::{spec_starts_with, spec_trim, join_lines, str_starts_with, str_eq, suffix_trimmed};

verus! {

// Client commands.
pub const HELO_START: &'static str = "HELO ";
pub const MAIL_START: &'static str = "MAIL FROM:";
pub const RCPT_START: &'static str = "RCPT TO:";
pub const DATA_LINE: &'static str = "DATA";
pub const DOT_LINE: &'static str = ".";
pub const QUIT_LINE: &'static str = "QUIT";

// Server responses.
pub const MSG_READY: &'static str = "220 ready";
pub const MSG_OK: &'static str = "250 OK";
pub const MSG_SEND_MESSAGE_CONTENT: &'static str = "354 Send message content";
pub const MSG_BYE: &'static str = "221 Bye";
pub const MSG_SYNTAX_ERROR: &'static str = "500 unexpected line";

/// Protocol states, named by the next expected command(s).
pub enum State {
    Helo,
    Mail,
    Rcpt,
    RcptOrData,
    Dot,
    MailOrQuit,
    Done,
}

/// Mathematical content of one finalized message.
pub ghost struct MessageModel {
    pub sender: Seq<char>,
    pub recipients: Seq<Seq<char>>,
    pub data: Seq<Seq<char>>,
}

/// Mathematical content of a connection: the protocol state, the domain
/// declared at the greeting, the finalized messages, and the in-progress
/// draft.
pub ghost struct ConnectionModel {
    pub state: State,
    pub sender_domain: Seq<char>,
    pub messages: Seq<MessageModel>,
    pub next_sender: Seq<char>,
    pub next_recipients: Seq<Seq<char>>,
    pub next_data: Seq<Seq<char>>,
}

/// An email message, immutable once finalized.
pub struct Message {
    sender: String,
    recipients: Vec<String>,
    data: Vec<String>,
}

impl View for Message {
    type V = MessageModel;

    closed spec fn view(&self) -> MessageModel {
        MessageModel {
            sender: self.sender@,
            recipients: self.recipients.deep_view(),
            data: self.data.deep_view(),
        }
    }
}

impl DeepView for Message {
    type V = MessageModel;

    open spec fn deep_view(&self) -> MessageModel {
        self.view()
    }
}

impl Message {
    /// The address given in the MAIL FROM command of this message's cycle.
    pub fn get_sender(&self) -> (r: &str)
        ensures
            r@ == self@.sender,
    {
        self.sender.as_str()
    }

    /// The addresses given in the RCPT TO commands, in order of arrival.
    pub fn get_recipients(&self) -> (r: &Vec<String>)
        ensures
            r.deep_view() == self@.recipients,
    {
        &self.recipients
    }

    /// The body lines joined by a newline, in order of arrival.
    pub fn get_data(&self) -> (r: String)
        ensures
            r@ == join_lines(self@.data),
    {
        let mut out = String::new();
        let mut i: usize = 0;
        proof {
            assert(self@.data.take(0) =~= Seq::<Seq<char>>::empty());
        }
        while i < self.data.len()
            invariant
                i <= self.data.len(),
                self@.data.len() == self.data.len(),
                self@.data == self.data.deep_view(),
                out@ == join_lines(self@.data.take(i as int)),
            decreases self.data.len() - i,
        {
            if i > 0 {
                out.append("\n");
            }
            out.append(self.data[i].as_str());
            proof {
                reveal_strlit("\n");
                assert("\n"@ =~= seq!['\n']);
                let taken = self@.data.take(i + 1);
                assert(taken.drop_last() =~= self@.data.take(i as int));
                assert(taken.last() == self@.data[i as int]);
            }
            i += 1;
        }
        proof {
            assert(self@.data.take(self.data.len() as int) =~= self@.data);
        }
        out
    }
}

/// The state of one connection: protocol position, declared domain,
/// finalized messages, and the current draft.
pub struct Connection {
    state: State,
    sender_domain: String,
    messages: Vec<Message>,
    next_sender: String,
    next_recipients: Vec<String>,
    next_data: Vec<String>,
}

impl View for Connection {
    type V = ConnectionModel;

    closed spec fn view(&self) -> ConnectionModel {
        ConnectionModel {
            state: self.state,
            sender_domain: self.sender_domain@,
            messages: self.messages.deep_view(),
            next_sender: self.next_sender@,
            next_recipients: self.next_recipients.deep_view(),
            next_data: self.next_data.deep_view(),
        }
    }
}

/// The model of a freshly constructed connection: awaiting the greeting, with
/// everything else empty.
pub open spec fn spec_init() -> ConnectionModel {
    ConnectionModel {
        state: State::Helo,
        sender_domain: Seq::empty(),
        messages: Seq::empty(),
        next_sender: Seq::empty(),
        next_recipients: Seq::empty(),
        next_data: Seq::empty(),
    }
}

/// The transition function of the protocol: from the current connection
/// model and one input line to the model after the line and the response.
/// `Ok` carries the response to write (the empty response is written as no
/// line at all); `Err` carries the syntax-error response.
pub open spec fn spec_feed(m: ConnectionModel, line: Seq<char>) -> (ConnectionModel, Result<
    Seq<char>,
    Seq<char>,
>) {
    match m.state {
        State::Helo => if spec_starts_with(line, HELO_START@) {
            (
                ConnectionModel {
                    state: State::Mail,
                    sender_domain: spec_trim(line.skip(HELO_START@.len() as int)),
                    ..m
                },
                Ok(MSG_OK@),
            )
        } else {
            (m, Err(MSG_SYNTAX_ERROR@))
        },
        State::Mail => if spec_starts_with(line, MAIL_START@) {
            (
                ConnectionModel {
                    state: State::Rcpt,
                    next_sender: spec_trim(line.skip(MAIL_START@.len() as int)),
                    ..m
                },
                Ok(MSG_OK@),
            )
        } else {
            (m, Err(MSG_SYNTAX_ERROR@))
        },
        State::Rcpt => if spec_starts_with(line, RCPT_START@) {
            (
                ConnectionModel {
                    state: State::RcptOrData,
                    next_recipients: m.next_recipients.push(
                        spec_trim(line.skip(RCPT_START@.len() as int)),
                    ),
                    ..m
                },
                Ok(MSG_OK@),
            )
        } else {
            (m, Err(MSG_SYNTAX_ERROR@))
        },
        State::RcptOrData => if spec_starts_with(line, RCPT_START@) {
            (
                ConnectionModel {
                    next_recipients: m.next_recipients.push(
                        spec_trim(line.skip(RCPT_START@.len() as int)),
                    ),
                    ..m
                },
                Ok(MSG_OK@),
            )
        } else if line == DATA_LINE@ {
            (ConnectionModel { state: State::Dot, ..m }, Ok(MSG_SEND_MESSAGE_CONTENT@))
        } else {
            (m, Err(MSG_SYNTAX_ERROR@))
        },
        State::Dot => if line == DOT_LINE@ {
            (
                ConnectionModel {
                    state: State::MailOrQuit,
                    messages: m.messages.push(
                        MessageModel {
                            sender: m.next_sender,
                            recipients: m.next_recipients,
                            data: m.next_data,
                        },
                    ),
                    next_sender: Seq::empty(),
                    next_recipients: Seq::empty(),
                    next_data: Seq::empty(),
                    ..m
                },
                Ok(MSG_OK@),
            )
        } else {
            (
                ConnectionModel { next_data: m.next_data.push(line), ..m },
                Ok(Seq::<char>::empty()),
            )
        },
        State::MailOrQuit => if spec_starts_with(line, MAIL_START@) {
            (
                ConnectionModel {
                    state: State::Rcpt,
                    next_sender: spec_trim(line.skip(MAIL_START@.len() as int)),
                    ..m
                },
                Ok(MSG_OK@),
            )
        } else if line == QUIT_LINE@ {
            (ConnectionModel { state: State::Done, ..m }, Ok(MSG_BYE@))
        } else {
            (m, Err(MSG_SYNTAX_ERROR@))
        },
        State::Done => (m, Err(MSG_SYNTAX_ERROR@)),
    }
}

impl Connection {
    /// A fresh connection, in the state that expects the HELO greeting.
    pub fn new() -> (c: Connection)
        ensures
            c@ == spec_init(),
    {
        let c = Connection {
            state: State::Helo,
            sender_domain: String::new(),
            messages: Vec::new(),
            next_sender: String::new(),
            next_recipients: Vec::new(),
            next_data: Vec::new(),
        };
        proof {
            assert(c@.messages =~= Seq::<MessageModel>::empty());
            assert(c@.next_recipients =~= Seq::<Seq<char>>::empty());
            assert(c@.next_data =~= Seq::<Seq<char>>::empty());
        }
        c
    }

    /// Feed one input line (already stripped of its terminator) to the state
    /// machine. The connection afterwards and the response are exactly those
    /// of `spec_feed` on the connection before and the line.
    pub fn feed_line(&mut self, line: &str) -> (r: Result<&'static str, &'static str>)
        ensures
            final(self)@ == spec_feed(old(self)@, line@).0,
            (match r {
                Ok(s) => spec_feed(old(self)@, line@).1 == Ok::<Seq<char>, Seq<char>>(s@),
                Err(s) => spec_feed(old(self)@, line@).1 == Err::<Seq<char>, Seq<char>>(s@),
            }),
    {
        match self.state {
            State::Helo => {
                if str_starts_with(line, HELO_START) {
                    self.sender_domain = suffix_trimmed(line, HELO_START.unicode_len());
                    self.state = State::Mail;
                    Ok(MSG_OK)
                } else {
                    Err(MSG_SYNTAX_ERROR)
                }
            },
            State::Mail => {
                if str_starts_with(line, MAIL_START) {
                    self.next_sender = suffix_trimmed(line, MAIL_START.unicode_len());
                    self.state = State::Rcpt;
                    Ok(MSG_OK)
                } else {
                    Err(MSG_SYNTAX_ERROR)
                }
            },
            State::Rcpt => {
                if str_starts_with(line, RCPT_START) {
                    let recipient = suffix_trimmed(line, RCPT_START.unicode_len());
                    self.next_recipients.push(recipient);
                    self.state = State::RcptOrData;
                    proof {
                        assert(self.next_recipients.deep_view() =~= old(
                            self,
                        ).next_recipients.deep_view().push(
                            spec_trim(line@.skip(RCPT_START@.len() as int)),
                        ));
                    }
                    Ok(MSG_OK)
                } else {
                    Err(MSG_SYNTAX_ERROR)
                }
            },
            State::RcptOrData => {
                if str_starts_with(line, RCPT_START) {
                    let recipient = suffix_trimmed(line, RCPT_START.unicode_len());
                    self.next_recipients.push(recipient);
                    proof {
                        assert(self.next_recipients.deep_view() =~= old(
                            self,
                        ).next_recipients.deep_view().push(
                            spec_trim(line@.skip(RCPT_START@.len() as int)),
                        ));
                    }
                    Ok(MSG_OK)
                } else if str_eq(line, DATA_LINE) {
                    self.state = State::Dot;
                    Ok(MSG_SEND_MESSAGE_CONTENT)
                } else {
                    Err(MSG_SYNTAX_ERROR)
                }
            },
            State::Dot => {
                if str_eq(line, DOT_LINE) {
                    let mut sender = String::new();
                    let mut recipients: Vec<String> = Vec::new();
                    let mut data: Vec<String> = Vec::new();
                    core::mem::swap(&mut self.next_sender, &mut sender);
                    core::mem::swap(&mut self.next_recipients, &mut recipients);
                    core::mem::swap(&mut self.next_data, &mut data);
                    let message = Message { sender, recipients, data };
                    self.messages.push(message);
                    self.state = State::MailOrQuit;
                    proof {
                        assert(self.messages.deep_view() =~= old(self).messages.deep_view().push(
                            MessageModel {
                                sender: old(self).next_sender@,
                                recipients: old(self).next_recipients.deep_view(),
                                data: old(self).next_data.deep_view(),
                            },
                        ));
                        assert(self.next_recipients.deep_view() =~= Seq::<Seq<char>>::empty());
                        assert(self.next_data.deep_view() =~= Seq::<Seq<char>>::empty());
                    }
                    Ok(MSG_OK)
                } else {
                    self.next_data.push(String::from_str(line));
                    proof {
                        reveal_strlit("");
                        assert(self.next_data.deep_view() =~= old(self).next_data.deep_view().push(
                            line@,
                        ));
                        assert(""@ =~= Seq::<char>::empty());
                    }
                    Ok("")
                }
            },
            State::MailOrQuit => {
                if str_starts_with(line, MAIL_START) {
                    self.next_sender = suffix_trimmed(line, MAIL_START.unicode_len());
                    self.state = State::Rcpt;
                    Ok(MSG_OK)
                } else if str_eq(line, QUIT_LINE) {
                    self.state = State::Done;
                    Ok(MSG_BYE)
                } else {
                    Err(MSG_SYNTAX_ERROR)
                }
            },
            State::Done => Err(MSG_SYNTAX_ERROR),
        }
    }

    /// The finalized messages, available exactly once the session has
    /// reached the terminal state.
    pub fn get_messages(&self) -> (r: Option<&Vec<Message>>)
        ensures
            (match r {
                Some(v) => self@.state is Done && v.deep_view() == self@.messages,
                None => !(self@.state is Done),
            }),
    {
        match self.state {
            State::Done => Some(&self.messages),
            _ => None,
        }
    }

    /// The domain declared at the greeting, available exactly once the
    /// session has reached the terminal state.
    pub fn get_sender_domain(&self) -> (r: Option<&str>)
        ensures
            (match r {
                Some(s) => self@.state is Done && s@ == self@.sender_domain,
                None => !(self@.state is Done),
            }),
    {
        match self.state {
            State::Done => Some(self.sender_domain.as_str()),
            _ => None,
        }
    }
}

/// The session loop over a sequence of input lines, starting from `m`:
/// feed each line in turn, collect the responses that are written (the empty
/// response is suppressed), and stop once the terminal response has been
/// written. Returns the connection model at the end, the written responses,
/// and whether the terminal response was reached.
pub open spec fn spec_session(m: ConnectionModel, lines: Seq<Seq<char>>) -> (
    ConnectionModel,
    Seq<Seq<char>>,
    bool,
)
    decreases lines.len(),
{
    if lines.len() == 0 {
        (m, Seq::empty(), false)
    } else {
        let step = spec_feed(m, lines[0]);
        match step.1 {
            Ok(s) => if s.len() == 0 {
                spec_session(step.0, lines.drop_first())
            } else if s == MSG_BYE@ {
                (step.0, seq![s], true)
            } else {
                let rest = spec_session(step.0, lines.drop_first());
                (rest.0, seq![s] + rest.1, rest.2)
            },
            Err(e) => {
                let rest = spec_session(step.0, lines.drop_first());
                (rest.0, seq![e] + rest.1, rest.2)
            },
        }
    }
}

impl Connection {
    /// Run a whole session over the given input lines: a fresh connection is
    /// greeted with the ready response, then fed one line at a time; each
    /// non-empty response is appended to the returned responses, and the
    /// loop stops after the terminal response or once the lines run out.
    pub fn handle(lines: &Vec<String>) -> (r: (Connection, Vec<String>))
        ensures
            ({
                let outcome = spec_session(spec_init(), lines.deep_view());
                r.0@ == outcome.0 && r.1.deep_view() == seq![MSG_READY@] + outcome.1
            }),
    {
        let ghost all = lines.deep_view();
        let ghost outcome = spec_session(spec_init(), all);
        let mut conn = Connection::new();
        let mut responses: Vec<String> = Vec::new();
        responses.push(String::from_str(MSG_READY));
        proof {
            assert(responses.deep_view() =~= seq![MSG_READY@]);
            assert(all.skip(0) =~= all);
        }
        let mut i: usize = 0;
        let mut done = false;
        while i < lines.len() && !done
            invariant
                i <= lines.len(),
                all == lines.deep_view(),
                outcome == spec_session(spec_init(), all),
                !done ==> ({
                    let rest = spec_session(conn@, all.skip(i as int));
                    outcome.0 == rest.0 && seq![MSG_READY@] + outcome.1 == responses.deep_view()
                        + rest.1 && outcome.2 == rest.2
                }),
                done ==> outcome.0 == conn@ && responses.deep_view() == seq![MSG_READY@]
                    + outcome.1,
            decreases lines.len() - i,
        {
            let ghost suffix = all.skip(i as int);
            proof {
                assert(suffix.len() == all.len() - i);
                assert(suffix[0] == all[i as int]);
                assert(suffix.drop_first() =~= all.skip(i as int + 1));
            }
            let ghost rs = responses.deep_view();
            let result = conn.feed_line(lines[i].as_str());
            match result {
                Ok(s) => {
                    if !s.is_empty() {
                        responses.push(String::from_str(s));
                        proof {
                            assert(responses.deep_view() =~= rs.push(s@));
                            assert(rs + seq![s@] =~= rs.push(s@));
                        }
                        if str_eq(s, MSG_BYE) {
                            done = true;
                        } else {
                            proof {
                                let rest = spec_session(conn@, suffix.drop_first());
                                assert((rs + seq![s@]) + rest.1 =~= rs + (seq![s@] + rest.1));
                            }
                        }
                    }
                },
                Err(e) => {
                    responses.push(String::from_str(e));
                    proof {
                        assert(responses.deep_view() =~= rs.push(e@));
                        assert(rs + seq![e@] =~= rs.push(e@));
                        let rest = spec_session(conn@, suffix.drop_first());
                        assert((rs + seq![e@]) + rest.1 =~= rs + (seq![e@] + rest.1));
                    }
                },
            }
            i += 1;
        }
        proof {
            if !done {
                assert(all.skip(i as int) =~= Seq::<Seq<char>>::empty());
                assert(responses.deep_view() + spec_session(conn@, all.skip(i as int)).1
                    =~= responses.deep_view());
            }
        }
        (conn, responses)
    }
}

} // verus!
