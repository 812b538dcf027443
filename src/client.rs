//! What a chat client decides: the commands it sends, the messages of a
//! received frame that reach its reader, and the answer to a keep-alive.
use vstd::prelude::*;
use crate::color::ColorTable;
use crate::message::{IrcCommand, IrcMessage, MessageModel, numeric, parse_line};
use crate::text::{chars_of, lines, split_lines, string_of};

verus! {

/// The nick of an anonymous, read-only session.
pub const ANONYMOUS_NICK: &'static str = "justinfan69";

/// The password of an anonymous session.
pub const ANONYMOUS_PASS: &'static str = "password";

/// The address of the chat server's secure WebSocket endpoint.
pub const SOCKET_URL: &'static str = "wss://irc-ws.chat.twitch.tv:443";

/// The three lines that log in, in the order they are sent.
pub open spec fn login_lines(nick: Seq<char>, password: Seq<char>) -> Seq<Seq<char>> {
    seq!["CAP REQ :twitch.tv/tags"@, "PASS "@ + password, "NICK "@ + nick]
}

/// The lines that log in as `nick` with `password`: the request for tags,
/// then `PASS`, then `NICK`.
pub fn login_commands(nick: &str, password: &str) -> (r: Vec<String>)
    ensures
        r@.len() == 3,
        r@[0]@ == login_lines(nick@, password@)[0],
        r@[1]@ == login_lines(nick@, password@)[1],
        r@[2]@ == login_lines(nick@, password@)[2],
{
    let mut r: Vec<String> = Vec::new();
    r.push(String::from_str("CAP REQ :twitch.tv/tags"));
    let mut pass = String::from_str("PASS ");
    pass.append(password);
    r.push(pass);
    let mut n = String::from_str("NICK ");
    n.append(nick);
    r.push(n);
    r
}

/// The line that joins the channel `channel_name` (given without its `#`).
pub fn join_command(channel_name: &str) -> (r: String)
    ensures
        r@ == "JOIN #"@ + channel_name@,
{
    let mut r = String::from_str("JOIN #");
    r.append(channel_name);
    r
}

/// The answer to a keep-alive: `PONG :` and the text of a `PING`; none to
/// any other command.
pub fn keepalive_reply(m: &IrcMessage) -> (r: Option<String>)
    ensures
        m.command == IrcCommand::Ping <==> r is Some,
        r matches Some(s) ==> s@ == "PONG :"@ + m.text@,
{
    if m.command == IrcCommand::Ping {
        let mut s = String::from_str("PONG :");
        s.append(m.text.as_str());
        Some(s)
    } else {
        None
    }
}

/// The messages that the lines `ls` from `i` on give to a reader: lines that
/// decode, but for numeric server replies, in order.
pub open spec fn delivered_from(ls: Seq<Seq<char>>, i: int) -> Seq<MessageModel>
    decreases ls.len() - i,
{
    if i >= ls.len() {
        seq![]
    } else {
        match parse_line(ls[i]) {
            Ok(m) => if numeric(m.command) {
                delivered_from(ls, i + 1)
            } else {
                seq![m] + delivered_from(ls, i + 1)
            },
            Err(_) => delivered_from(ls, i + 1),
        }
    }
}

/// The messages that a received text frame gives to a reader.
pub open spec fn delivered(frame: Seq<char>) -> Seq<MessageModel> {
    delivered_from(lines(frame), 0)
}

pub open spec fn messages_view(ms: Seq<IrcMessage>) -> Seq<MessageModel> {
    ms.map_values(|m: IrcMessage| m@)
}

/// Decodes each line of a received text frame; lines that do not decode and
/// numeric server replies are left out, the rest kept in order. Each sender
/// gets its color from `colors`, where colors already held stay as they are.
pub fn decode_frame(frame: &str, colors: &mut ColorTable) -> (r: Vec<IrcMessage>)
    requires
        old(colors).wf(),
    ensures
        final(colors).wf(),
        messages_view(r@) == delivered(frame@),
        forall|n: Seq<char>| #[trigger]
            old(colors).view().contains_key(n) ==> final(colors).view().contains_key(n)
                && final(colors).view()[n] == old(colors).view()[n],
        forall|k: int|
            0 <= k < r@.len() ==> final(colors).view().contains_key(#[trigger] r@[k].source_name@)
                && final(colors).view()[r@[k].source_name@] == r@[k].source_color,
{
    let chars = chars_of(frame);
    let ls = split_lines(&chars);
    let ghost lv = lines(frame@);
    let mut out: Vec<IrcMessage> = Vec::new();
    let mut i: usize = 0;
    while i < ls.len()
        invariant
            i <= ls.len(),
            lv == lines(frame@),
            ls@.map_values(|p: Vec<char>| p@) == lv,
            colors.wf(),
            messages_view(out@) + delivered_from(lv, i as int) == delivered(frame@),
            forall|n: Seq<char>| #[trigger]
                old(colors).view().contains_key(n) ==> colors.view().contains_key(n)
                    && colors.view()[n] == old(colors).view()[n],
            forall|k: int|
                0 <= k < out@.len() ==> colors.view().contains_key(#[trigger] out@[k].source_name@)
                    && colors.view()[out@[k].source_name@] == out@[k].source_color,
        decreases ls.len() - i,
    {
        let line = string_of(ls[i].as_slice());
        assert(line@ == lv[i as int]);
        match IrcMessage::from_str(line.as_str(), colors) {
            Ok(m) => {
                if !m.command.is_numeric() {
                    let ghost before = out@;
                    let ghost mv = m@;
                    out.push(m);
                    assert(messages_view(out@) =~= messages_view(before).push(mv));
                    assert(messages_view(out@) + delivered_from(lv, i + 1) =~= messages_view(before)
                        + (seq![mv] + delivered_from(lv, i + 1)));
                }
            },
            Err(_) => {},
        }
        i += 1;
    }
    assert(messages_view(out@) + seq![] =~= messages_view(out@));
    out
}

/// No numeric server reply ever reaches a reader.
pub proof fn lemma_numeric_replies_withheld(frame: Seq<char>, k: int)
    requires
        0 <= k < delivered(frame).len(),
    ensures
        !numeric(delivered(frame)[k].command),
{
    lemma_delivered_not_numeric(lines(frame), 0, k);
}

proof fn lemma_delivered_not_numeric(ls: Seq<Seq<char>>, i: int, k: int)
    requires
        0 <= k < delivered_from(ls, i).len(),
    ensures
        !numeric(delivered_from(ls, i)[k].command),
    decreases ls.len() - i,
{
    if i < ls.len() {
        match parse_line(ls[i]) {
            Ok(m) => if numeric(m.command) {
                lemma_delivered_not_numeric(ls, i + 1, k);
            } else if k > 0 {
                lemma_delivered_not_numeric(ls, i + 1, k - 1);
            },
            Err(_) => {
                lemma_delivered_not_numeric(ls, i + 1, k);
            },
        }
    }
}

} // verus!
