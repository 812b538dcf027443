//! IRC commands, decoded messages and their tags.
use vstd::prelude::*;
use crate::color::{ColorTable, color_step, get_user_color};
use crate::emote::Emote;
use crate::tags::{
    fatal_entry, is_first_msg_entry, lemma_first_msg_absent, lemma_first_msg_flag,
    lemma_malformed_emotes_drop_tags, parse_tags, tags_of,
};
use crate::text::{
    chars_of, find_char, find_from, same_chars, slice_of, split, split_once, split_words,
    string_of, words,
};

verus! {

/// The command of a chat line. Numeric replies share this type with textual
/// verbs; `Max` bounds the variants and stands for no command.
#[derive(Debug, Clone, Copy, PartialEq, Eq, Structural)]
pub enum IrcCommand {
    Unknown,
    Welcome,
    YourHost,
    Created,
    MyInfo,
    NameReply,
    EndOfNames,
    Motd,
    MotdStart,
    MotdEnd,
    Ping,
    Cap,
    Join,
    PrivMsg,
    Max,
}

/// The command a token names; any other token is `Unknown`.
pub open spec fn command_of(t: Seq<char>) -> IrcCommand {
    if t == "PING"@ {
        IrcCommand::Ping
    } else if t == "CAP"@ {
        IrcCommand::Cap
    } else if t == "JOIN"@ {
        IrcCommand::Join
    } else if t == "PRIVMSG"@ {
        IrcCommand::PrivMsg
    } else if t == "001"@ {
        IrcCommand::Welcome
    } else if t == "002"@ {
        IrcCommand::YourHost
    } else if t == "003"@ {
        IrcCommand::Created
    } else if t == "004"@ {
        IrcCommand::MyInfo
    } else if t == "353"@ {
        IrcCommand::NameReply
    } else if t == "366"@ {
        IrcCommand::EndOfNames
    } else if t == "372"@ {
        IrcCommand::Motd
    } else if t == "375"@ {
        IrcCommand::MotdStart
    } else if t == "376"@ {
        IrcCommand::MotdEnd
    } else {
        IrcCommand::Unknown
    }
}

/// Whether a command is a numeric server reply.
pub open spec fn numeric(c: IrcCommand) -> bool {
    match c {
        IrcCommand::Welcome | IrcCommand::YourHost | IrcCommand::Created | IrcCommand::MyInfo
        | IrcCommand::NameReply | IrcCommand::EndOfNames | IrcCommand::Motd
        | IrcCommand::MotdStart | IrcCommand::MotdEnd => true,
        _ => false,
    }
}

impl IrcCommand {
    /// The command that `command` names.
    pub fn from_str(command: &str) -> (r: IrcCommand)
        ensures
            r == command_of(command@),
    {
        let t = crate::text::chars_of(command);
        command_from_chars(&t)
    }

    /// Whether this is a numeric server reply (001-004, 353, 366, 372, 375, 376).
    pub fn is_numeric(&self) -> (r: bool)
        ensures
            r == numeric(*self),
    {
        match self {
            IrcCommand::Welcome | IrcCommand::YourHost | IrcCommand::Created
            | IrcCommand::MyInfo | IrcCommand::NameReply | IrcCommand::EndOfNames
            | IrcCommand::Motd | IrcCommand::MotdStart | IrcCommand::MotdEnd => true,
            _ => false,
        }
    }

    /// The variant's name.
    pub fn name(&self) -> (r: &'static str)
        ensures
            r@ == command_name(*self),
    {
        match self {
            IrcCommand::Unknown => "Unknown",
            IrcCommand::Welcome => "Welcome",
            IrcCommand::YourHost => "YourHost",
            IrcCommand::Created => "Created",
            IrcCommand::MyInfo => "MyInfo",
            IrcCommand::NameReply => "NameReply",
            IrcCommand::EndOfNames => "EndOfNames",
            IrcCommand::Motd => "Motd",
            IrcCommand::MotdStart => "MotdStart",
            IrcCommand::MotdEnd => "MotdEnd",
            IrcCommand::Ping => "Ping",
            IrcCommand::Cap => "Cap",
            IrcCommand::Join => "Join",
            IrcCommand::PrivMsg => "PrivMsg",
            IrcCommand::Max => "Max",
        }
    }
}

/// The name of a command variant.
pub open spec fn command_name(c: IrcCommand) -> Seq<char> {
    match c {
        IrcCommand::Unknown => "Unknown"@,
        IrcCommand::Welcome => "Welcome"@,
        IrcCommand::YourHost => "YourHost"@,
        IrcCommand::Created => "Created"@,
        IrcCommand::MyInfo => "MyInfo"@,
        IrcCommand::NameReply => "NameReply"@,
        IrcCommand::EndOfNames => "EndOfNames"@,
        IrcCommand::Motd => "Motd"@,
        IrcCommand::MotdStart => "MotdStart"@,
        IrcCommand::MotdEnd => "MotdEnd"@,
        IrcCommand::Ping => "Ping"@,
        IrcCommand::Cap => "Cap"@,
        IrcCommand::Join => "Join"@,
        IrcCommand::PrivMsg => "PrivMsg"@,
        IrcCommand::Max => "Max"@,
    }
}

/// The command that the token `t` names.
pub fn command_from_chars(t: &Vec<char>) -> (r: IrcCommand)
    ensures
        r == command_of(t@),
{
    if same_chars(t, "PING") {
        IrcCommand::Ping
    } else if same_chars(t, "CAP") {
        IrcCommand::Cap
    } else if same_chars(t, "JOIN") {
        IrcCommand::Join
    } else if same_chars(t, "PRIVMSG") {
        IrcCommand::PrivMsg
    } else if same_chars(t, "001") {
        IrcCommand::Welcome
    } else if same_chars(t, "002") {
        IrcCommand::YourHost
    } else if same_chars(t, "003") {
        IrcCommand::Created
    } else if same_chars(t, "004") {
        IrcCommand::MyInfo
    } else if same_chars(t, "353") {
        IrcCommand::NameReply
    } else if same_chars(t, "366") {
        IrcCommand::EndOfNames
    } else if same_chars(t, "372") {
        IrcCommand::Motd
    } else if same_chars(t, "375") {
        IrcCommand::MotdStart
    } else if same_chars(t, "376") {
        IrcCommand::MotdEnd
    } else {
        IrcCommand::Unknown
    }
}

/// One emote used in a message: the emote and the character ranges
/// `(start, end)` of the text where it stands.
#[derive(Debug)]
pub struct EmoteEntry {
    pub emote: Emote,
    pub ranges: Vec<(usize, usize)>,
}

/// What an `EmoteEntry` holds.
pub struct EmoteEntryModel {
    pub emote: Emote,
    pub ranges: Seq<(usize, usize)>,
}

impl View for EmoteEntry {
    type V = EmoteEntryModel;

    open spec fn view(&self) -> EmoteEntryModel {
        EmoteEntryModel { emote: self.emote, ranges: self.ranges@ }
    }
}

/// The metadata of a message, from its tag block.
#[derive(Debug)]
pub struct IrcTags {
    pub is_mod: bool,
    pub is_subscriber: bool,
    pub is_turbo: bool,
    pub is_vip: bool,
    pub is_first_message: bool,
    pub is_returning_chatter: bool,
    pub is_highlighted: bool,
    pub color: Option<u32>,
    pub display_name: Option<String>,
    pub user_id: u32,
    pub emotes: Vec<EmoteEntry>,
}

/// What an `IrcTags` holds.
pub struct TagsModel {
    pub is_mod: bool,
    pub is_subscriber: bool,
    pub is_turbo: bool,
    pub is_vip: bool,
    pub is_first_message: bool,
    pub is_returning_chatter: bool,
    pub is_highlighted: bool,
    pub color: Option<u32>,
    pub display_name: Option<Seq<char>>,
    pub user_id: u32,
    pub emotes: Seq<EmoteEntryModel>,
}

pub open spec fn name_view(n: Option<String>) -> Option<Seq<char>> {
    match n {
        Some(s) => Some(s@),
        None => None,
    }
}

pub open spec fn entries_view(es: Seq<EmoteEntry>) -> Seq<EmoteEntryModel> {
    es.map_values(|e: EmoteEntry| e@)
}

impl View for IrcTags {
    type V = TagsModel;

    open spec fn view(&self) -> TagsModel {
        TagsModel {
            is_mod: self.is_mod,
            is_subscriber: self.is_subscriber,
            is_turbo: self.is_turbo,
            is_vip: self.is_vip,
            is_first_message: self.is_first_message,
            is_returning_chatter: self.is_returning_chatter,
            is_highlighted: self.is_highlighted,
            color: self.color,
            display_name: name_view(self.display_name),
            user_id: self.user_id,
            emotes: entries_view(self.emotes@),
        }
    }
}

/// Tags with every flag false, no color, no display name, user id 0 and no emotes.
pub open spec fn default_tags() -> TagsModel {
    TagsModel {
        is_mod: false,
        is_subscriber: false,
        is_turbo: false,
        is_vip: false,
        is_first_message: false,
        is_returning_chatter: false,
        is_highlighted: false,
        color: None,
        display_name: None,
        user_id: 0,
        emotes: seq![],
    }
}

impl IrcTags {
    /// The default tags of a line without a tag block.
    pub fn new() -> (r: IrcTags)
        ensures
            r@ == default_tags(),
    {
        let r = IrcTags {
            is_mod: false,
            is_subscriber: false,
            is_turbo: false,
            is_vip: false,
            is_first_message: false,
            is_returning_chatter: false,
            is_highlighted: false,
            color: None,
            display_name: None,
            user_id: 0,
            emotes: Vec::new(),
        };
        assert(r@.emotes =~= seq![]);
        r
    }
}

/// Why a line cannot be decoded.
#[derive(Debug, Clone, Copy, PartialEq, Eq, Structural)]
pub enum ParseError {
    /// The line starts a tag block with `@` but no space ends it.
    MissingTagTerminator,
    /// The source starts with `:` but no space ends it.
    MissingSourceTerminator,
}

/// One decoded chat line.
#[derive(Debug)]
pub struct IrcMessage {
    pub tags: IrcTags,
    pub source: String,
    pub command: IrcCommand,
    pub channels: Vec<String>,
    pub text: String,
    pub raw: String,
    pub source_name: String,
    pub source_color: u32,
}

/// What an `IrcMessage` holds, but for its color.
pub struct MessageModel {
    pub tags: TagsModel,
    pub source: Seq<char>,
    pub command: IrcCommand,
    pub channels: Seq<Seq<char>>,
    pub text: Seq<char>,
    pub raw: Seq<char>,
    pub source_name: Seq<char>,
}

pub open spec fn strings_view(v: Seq<String>) -> Seq<Seq<char>> {
    v.map_values(|s: String| s@)
}

impl View for IrcMessage {
    type V = MessageModel;

    open spec fn view(&self) -> MessageModel {
        MessageModel {
            tags: self.tags@,
            source: self.source@,
            command: self.command,
            channels: strings_view(self.channels@),
            text: self.text@,
            raw: self.raw@,
            source_name: self.source_name@,
        }
    }
}

/// The tag block of a line that starts with `@`: what stands between the `@`
/// and the first space.
pub open spec fn tag_block(line: Seq<char>) -> Seq<char> {
    line.subrange(1, find_from(line, ' ', 0))
}

/// The tags of a line and what follows them. A tag block that cannot be
/// parsed gives the default tags.
pub open spec fn split_tags(line: Seq<char>) -> Result<(TagsModel, Seq<char>), ParseError> {
    if line.len() > 0 && line[0] == '@' {
        let i = find_from(line, ' ', 0);
        if i < line.len() {
            let tags = match tags_of(tag_block(line)) {
                Some(t) => t,
                None => default_tags(),
            };
            Ok((tags, line.subrange(i + 1, line.len() as int)))
        } else {
            Err(ParseError::MissingTagTerminator)
        }
    } else {
        Ok((default_tags(), line))
    }
}

/// The index of the first character of `s` at or after `i` that is not `:`.
pub open spec fn skip_colons(s: Seq<char>, i: int) -> int
    decreases s.len() - i,
{
    if i < s.len() && s[i] == ':' {
        skip_colons(s, i + 1)
    } else {
        i
    }
}

/// The source of the rest of a line, without its leading colons, and what
/// follows it.
pub open spec fn split_source(rest: Seq<char>) -> Result<(Seq<char>, Seq<char>), ParseError> {
    if rest.len() > 0 && rest[0] == ':' {
        let i = find_from(rest, ' ', 0);
        if i < rest.len() {
            let src = rest.subrange(0, i);
            Ok((src.subrange(skip_colons(src, 0), src.len() as int), rest.subrange(i + 1, rest.len() as int)))
        } else {
            Err(ParseError::MissingSourceTerminator)
        }
    } else {
        Ok((seq![], rest))
    }
}

/// The command part (before the first `:`) and the text (after it).
pub open spec fn split_text(rest: Seq<char>) -> (Seq<char>, Seq<char>) {
    let j = find_from(rest, ':', 0);
    if j < rest.len() {
        (rest.subrange(0, j), rest.subrange(j + 1, rest.len() as int))
    } else {
        (rest, seq![])
    }
}

/// The command that the first token names, `Unknown` when there is none.
pub open spec fn command_of_tokens(tokens: Seq<Seq<char>>) -> IrcCommand {
    if tokens.len() > 0 {
        command_of(tokens[0])
    } else {
        IrcCommand::Unknown
    }
}

/// The tokens after the command.
pub open spec fn channels_of_tokens(tokens: Seq<Seq<char>>) -> Seq<Seq<char>> {
    if tokens.len() > 0 {
        tokens.drop_first()
    } else {
        seq![]
    }
}

/// Who sent a line: the display name, else the source up to its first `!`.
pub open spec fn source_name_of(tags: TagsModel, source: Seq<char>) -> Seq<char> {
    match tags.display_name {
        Some(d) => d,
        None => source.subrange(0, find_from(source, '!', 0)),
    }
}

/// The decoded form of `line`.
pub open spec fn parse_line(line: Seq<char>) -> Result<MessageModel, ParseError> {
    match split_tags(line) {
        Err(e) => Err(e),
        Ok((tags, rest)) => match split_source(rest) {
            Err(e) => Err(e),
            Ok((source, rest2)) => {
                let (cmd, text) = split_text(rest2);
                let tokens = words(cmd);
                Ok(
                    MessageModel {
                        tags,
                        source,
                        command: command_of_tokens(tokens),
                        channels: channels_of_tokens(tokens),
                        text,
                        raw: line,
                        source_name: source_name_of(tags, source),
                    },
                )
            },
        },
    }
}

/// The strings that hold `v[from..]`.
fn strings_from(v: &Vec<Vec<char>>, from: usize) -> (r: Vec<String>)
    requires
        from <= v.len(),
    ensures
        strings_view(r@) == v@.map_values(|p: Vec<char>| p@).subrange(from as int, v.len() as int),
{
    let mut out: Vec<String> = Vec::new();
    let mut i: usize = from;
    while i < v.len()
        invariant
            from <= i <= v.len(),
            strings_view(out@) == v@.map_values(|p: Vec<char>| p@).subrange(from as int, i as int),
        decreases v.len() - i,
    {
        let s = string_of(v[i].as_slice());
        let ghost before = out@;
        out.push(s);
        assert(strings_view(out@) =~= strings_view(before).push(v@[i as int]@));
        assert(strings_view(out@) =~= v@.map_values(|p: Vec<char>| p@).subrange(from as int, i + 1));
        i += 1;
    }
    out
}

/// The command that the first token of `raw_command` names, and the tokens
/// after it.
pub fn parse_command(raw_command: &Vec<char>) -> (r: (IrcCommand, Vec<String>))
    ensures
        r.0 == command_of_tokens(words(raw_command@)),
        strings_view(r.1@) == channels_of_tokens(words(raw_command@)),
{
    let tokens = split_words(raw_command);
    if tokens.len() > 0 {
        let channels = strings_from(&tokens, 1);
        assert(strings_view(channels@) =~= channels_of_tokens(words(raw_command@)));
        (command_from_chars(&tokens[0]), channels)
    } else {
        let channels: Vec<String> = Vec::new();
        assert(strings_view(channels@) =~= channels_of_tokens(words(raw_command@)));
        (IrcCommand::Unknown, channels)
    }
}

impl IrcMessage {
    /// Decodes one line; the sender's color comes from `colors`, which gives a
    /// name seen for the first time a color of its own.
    pub fn from_str(str: &str, colors: &mut ColorTable) -> (r: Result<IrcMessage, ParseError>)
        requires
            old(colors).wf(),
        ensures
            final(colors).wf(),
            match r {
                Ok(m) => parse_line(str@) == Ok::<MessageModel, ParseError>(m@) && color_step(
                    old(colors).view(),
                    m.source_name@,
                    m.source_color,
                    final(colors).view(),
                ),
                Err(e) => parse_line(str@) == Err::<MessageModel, ParseError>(e)
                    && final(colors).view() == old(colors).view(),
            },
    {
        let line = chars_of(str);
        let mut pos: usize = 0;
        let mut tags = IrcTags::new();
        if line.len() > 0 && line[0] == '@' {
            let i = find_char(&line, ' ', 0);
            if i >= line.len() {
                return Err(ParseError::MissingTagTerminator);
            }
            let raw_tags = slice_of(&line, 1, i);
            match parse_tags(&raw_tags) {
                Some(t) => {
                    tags = t;
                },
                None => {},
            }
            pos = i + 1;
        }
        let rest = slice_of(&line, pos, line.len());
        assert(line@.subrange(0, line@.len() as int) =~= line@);
        assert(split_tags(line@) == Ok::<(TagsModel, Seq<char>), ParseError>((tags@, rest@)));
        let mut pos2: usize = 0;
        let mut source_chars: Vec<char> = Vec::new();
        if rest.len() > 0 && rest[0] == ':' {
            let i = find_char(&rest, ' ', 0);
            if i >= rest.len() {
                return Err(ParseError::MissingSourceTerminator);
            }
            let mut k: usize = 0;
            while k < i && rest[k] == ':'
                invariant
                    k <= i < rest.len(),
                    skip_colons(rest@.subrange(0, i as int), 0) == skip_colons(
                        rest@.subrange(0, i as int),
                        k as int,
                    ),
                decreases i - k,
            {
                k += 1;
            }
            source_chars = slice_of(&rest, k, i);
            assert(source_chars@ =~= rest@.subrange(0, i as int).subrange(k as int, i as int));
            pos2 = i + 1;
        }
        let rest2 = slice_of(&rest, pos2, rest.len());
        assert(rest@.subrange(0, rest@.len() as int) =~= rest@);
        assert(split_source(rest@) == Ok::<(Seq<char>, Seq<char>), ParseError>((source_chars@, rest2@)));
        let j = find_char(&rest2, ':', 0);
        let cmd = slice_of(&rest2, 0, j);
        let text = if j < rest2.len() {
            slice_of(&rest2, j + 1, rest2.len())
        } else {
            Vec::new()
        };
        assert(rest2@.subrange(0, rest2@.len() as int) =~= rest2@);
        assert(j >= rest2.len() ==> text@ =~= Seq::<char>::empty());
        assert(split_text(rest2@) == (cmd@, text@));
        let (command, channels) = parse_command(&cmd);
        let source = string_of(source_chars.as_slice());
        let source_name = match &tags.display_name {
            Some(d) => d.clone(),
            None => {
                let b = find_char(&source_chars, '!', 0);
                string_of(slice_of(&source_chars, 0, b).as_slice())
            },
        };
        let source_color = get_user_color(colors, &source_name);
        let msg = IrcMessage {
            tags,
            source,
            command,
            channels,
            text: string_of(text.as_slice()),
            raw: string_of(line.as_slice()),
            source_name,
            source_color,
        };
        Ok(msg)
    }
}

/// A line without a tag block that decodes has the default tags.
pub proof fn lemma_untagged_line_default_tags(line: Seq<char>)
    requires
        !(line.len() > 0 && line[0] == '@'),
        parse_line(line) is Ok,
    ensures
        parse_line(line)->Ok_0.tags == default_tags(),
{
}

/// A line whose tag block holds a malformed emote list still decodes when
/// the rest of it does, with the default tags.
pub proof fn lemma_malformed_emotes_default_tags(line: Seq<char>, j: int)
    requires
        line.len() > 0 && line[0] == '@',
        find_from(line, ' ', 0) < line.len(),
        0 <= j < split(tag_block(line), ';').len(),
        fatal_entry(split(tag_block(line), ';')[j]),
        split_source(line.subrange(find_from(line, ' ', 0) + 1, line.len() as int)) is Ok,
    ensures
        parse_line(line) is Ok,
        parse_line(line)->Ok_0.tags == default_tags(),
{
    lemma_malformed_emotes_drop_tags(tag_block(line), j);
}

/// A line whose tag block parses and holds one `first-msg=v` entry decodes
/// with the first-message flag set exactly when `v` is `1`; with no
/// `first-msg` entry the flag is not set.
pub proof fn lemma_first_message_flag(line: Seq<char>, j: int, v: Seq<char>)
    requires
        line.len() > 0 && line[0] == '@',
        parse_line(line) is Ok,
        tags_of(tag_block(line)) is Some,
        j < split(tag_block(line), ';').len(),
        0 <= j ==> split_once(split(tag_block(line), ';')[j], '=') == Some(("first-msg"@, v)),
        forall|k: int|
            0 <= k < split(tag_block(line), ';').len() && k != j ==> !is_first_msg_entry(
                #[trigger] split(tag_block(line), ';')[k],
            ),
    ensures
        parse_line(line)->Ok_0.tags.is_first_message == (0 <= j && v == "1"@),
{
    if 0 <= j {
        lemma_first_msg_flag(tag_block(line), j, v);
    } else {
        lemma_first_msg_absent(tag_block(line));
    }
}

} // verus!
