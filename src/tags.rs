//! The tag block of a chat line: `key=value` entries separated by `;`.
use vstd::prelude::*;
use crate::emote::{Emote, EmoteServer};
use crate::message::{EmoteEntry, EmoteEntryModel, IrcTags, TagsModel, default_tags, entries_view};
use crate::text::{
    lemma_number_lacks, lemma_split_once_joined, lemma_split_without_separator,
    parse_unsigned, parse_unsigned_chars, same_chars, slice_of, split, split_at_char,
    split_once, split_once_at, string_of,
};

verus! {

/// The largest `u32`.
pub const U32_LIMIT: u64 = 0xffff_ffff;

/// A decimal `u32`.
pub open spec fn decimal_u32(s: Seq<char>) -> Option<nat> {
    parse_unsigned(s, 10, 0xffff_ffff)
}

/// A decimal `usize`.
pub open spec fn decimal_usize(s: Seq<char>) -> Option<nat> {
    parse_unsigned(s, 10, usize::MAX as nat)
}

/// A range `start-end` of two decimal numbers.
pub open spec fn range_of(piece: Seq<char>) -> Option<(usize, usize)> {
    match split_once(piece, '-') {
        None => None,
        Some((a, b)) => match (decimal_usize(a), decimal_usize(b)) {
            (Some(x), Some(y)) => Some((x as usize, y as usize)),
            _ => None,
        },
    }
}

/// The ranges of `pieces` from `i` on, appended to `acc`; `None` if one is malformed.
pub open spec fn ranges_from(acc: Seq<(usize, usize)>, pieces: Seq<Seq<char>>, i: int) -> Option<
    Seq<(usize, usize)>,
>
    decreases pieces.len() - i,
{
    if i >= pieces.len() {
        Some(acc)
    } else {
        match range_of(pieces[i]) {
            None => None,
            Some(r) => ranges_from(acc.push(r), pieces, i + 1),
        }
    }
}

/// The ranges `a-b,c-d,...` of one emote.
pub open spec fn ranges_of(s: Seq<char>) -> Option<Seq<(usize, usize)>> {
    ranges_from(seq![], split(s, ','), 0)
}

/// One `id:ranges` entry added to `acc`: skipped when the id is not a number,
/// `None` when there is no `:` or a range is malformed.
pub open spec fn add_emote(acc: Seq<EmoteEntryModel>, piece: Seq<char>) -> Option<
    Seq<EmoteEntryModel>,
> {
    match split_once(piece, ':') {
        None => None,
        Some((id, rs)) => match decimal_u32(id) {
            None => Some(acc),
            Some(n) => match ranges_of(rs) {
                None => None,
                Some(ranges) => Some(
                    acc.push(
                        EmoteEntryModel {
                            emote: Emote { server: EmoteServer::Twitch, id: n as u32 },
                            ranges,
                        },
                    ),
                ),
            },
        },
    }
}

/// The emotes of `pieces` from `i` on, added to `acc`.
pub open spec fn emotes_from(acc: Seq<EmoteEntryModel>, pieces: Seq<Seq<char>>, i: int) -> Option<
    Seq<EmoteEntryModel>,
>
    decreases pieces.len() - i,
{
    if i >= pieces.len() {
        Some(acc)
    } else {
        match add_emote(acc, pieces[i]) {
            None => None,
            Some(a) => emotes_from(a, pieces, i + 1),
        }
    }
}

/// The value of an `emotes` tag: entries separated by `/`; empty for an empty value.
pub open spec fn emotes_of(v: Seq<char>) -> Option<Seq<EmoteEntryModel>> {
    if v.len() == 0 {
        Some(seq![])
    } else {
        emotes_from(seq![], split(v, '/'), 0)
    }
}

/// A `#rrggbb` color value: hex digits after `#`, as a `u32`.
pub open spec fn color_of(v: Seq<char>) -> Option<nat> {
    if v.len() > 0 && v[0] == '#' {
        parse_unsigned(v.drop_first(), 16, 0xffff_ffff)
    } else {
        None
    }
}

/// One tag entry applied to `t`. Entries without `=` and keys that carry
/// nothing of `TagsModel` leave it as it is; a malformed emote list is `None`.
pub open spec fn apply_tag(t: TagsModel, entry: Seq<char>) -> Option<TagsModel> {
    match split_once(entry, '=') {
        None => Some(t),
        Some((k, v)) => if k == "color"@ {
            Some(
                TagsModel {
                    color: match color_of(v) {
                        Some(c) => Some(c as u32),
                        None => t.color,
                    },
                    ..t
                },
            )
        } else if k == "first-msg"@ {
            Some(TagsModel { is_first_message: v == "1"@, ..t })
        } else if k == "display-name"@ {
            Some(TagsModel { display_name: Some(v), ..t })
        } else if k == "emotes"@ {
            match emotes_of(v) {
                None => None,
                Some(es) => Some(TagsModel { emotes: t.emotes + es, ..t }),
            }
        } else if k == "mod"@ {
            Some(TagsModel { is_mod: v == "1"@, ..t })
        } else if k == "msg-id"@ {
            Some(TagsModel { is_highlighted: v == "1"@, ..t })
        } else if k == "returning-chatter"@ {
            Some(TagsModel { is_returning_chatter: v == "1"@, ..t })
        } else if k == "subscriber"@ {
            Some(TagsModel { is_subscriber: v == "1"@, ..t })
        } else if k == "turbo"@ {
            Some(TagsModel { is_turbo: v == "1"@, ..t })
        } else if k == "user-id"@ {
            Some(
                TagsModel {
                    user_id: match decimal_u32(v) {
                        Some(n) => n as u32,
                        None => 0,
                    },
                    ..t
                },
            )
        } else if k == "vip"@ {
            Some(TagsModel { is_vip: v == "1"@, ..t })
        } else {
            Some(t)
        },
    }
}

/// The entries `pieces` from `i` on applied to `t` in order.
pub open spec fn tags_from(t: TagsModel, pieces: Seq<Seq<char>>, i: int) -> Option<TagsModel>
    decreases pieces.len() - i,
{
    if i >= pieces.len() {
        Some(t)
    } else {
        match apply_tag(t, pieces[i]) {
            None => None,
            Some(u) => tags_from(u, pieces, i + 1),
        }
    }
}

/// The tags that a raw tag block (without its `@`) gives.
pub open spec fn tags_of(raw: Seq<char>) -> Option<TagsModel> {
    tags_from(default_tags(), split(raw, ';'), 0)
}

/// Parses `a-b,c-d,...`.
fn parse_ranges(s: &Vec<char>) -> (r: Option<Vec<(usize, usize)>>)
    ensures
        match r {
            Some(v) => ranges_of(s@) == Some(v@),
            None => ranges_of(s@) is None,
        },
{
    let pieces = split_at_char(s, ',');
    let ghost ps = split(s@, ',');
    let mut out: Vec<(usize, usize)> = Vec::new();
    let mut i: usize = 0;
    while i < pieces.len()
        invariant
            i <= pieces.len(),
            ps == split(s@, ','),
            pieces@.map_values(|p: Vec<char>| p@) == ps,
            ranges_from(out@, ps, i as int) == ranges_of(s@),
        decreases pieces.len() - i,
    {
        assert(pieces@[i as int]@ == ps[i as int]);
        match split_once_at(&pieces[i], '-') {
            None => {
                return None;
            },
            Some((a, b)) => {
                let x = parse_unsigned_chars(&a, 10, usize::MAX as u64);
                let y = parse_unsigned_chars(&b, 10, usize::MAX as u64);
                match (x, y) {
                    (Some(x), Some(y)) => {
                        out.push((x as usize, y as usize));
                    },
                    _ => {
                        return None;
                    },
                }
            },
        }
        i += 1;
    }
    Some(out)
}

/// Parses the value of an `emotes` tag.
fn parse_emotes(v: &Vec<char>) -> (r: Option<Vec<EmoteEntry>>)
    ensures
        match r {
            Some(es) => emotes_of(v@) == Some(entries_view(es@)),
            None => emotes_of(v@) is None,
        },
{
    let mut out: Vec<EmoteEntry> = Vec::new();
    if v.len() == 0 {
        assert(entries_view(out@) =~= seq![]);
        return Some(out);
    }
    let pieces = split_at_char(v, '/');
    let ghost ps = split(v@, '/');
    let mut i: usize = 0;
    assert(entries_view(out@) =~= seq![]);
    while i < pieces.len()
        invariant
            v@.len() > 0,
            i <= pieces.len(),
            ps == split(v@, '/'),
            pieces@.map_values(|p: Vec<char>| p@) == ps,
            emotes_from(entries_view(out@), ps, i as int) == emotes_of(v@),
        decreases pieces.len() - i,
    {
        assert(pieces@[i as int]@ == ps[i as int]);
        match split_once_at(&pieces[i], ':') {
            None => {
                return None;
            },
            Some((id, rs)) => {
                match parse_unsigned_chars(&id, 10, U32_LIMIT) {
                    None => {},
                    Some(n) => {
                        match parse_ranges(&rs) {
                            None => {
                                return None;
                            },
                            Some(ranges) => {
                                let e = EmoteEntry {
                                    emote: Emote { server: EmoteServer::Twitch, id: n as u32 },
                                    ranges,
                                };
                                let ghost before = entries_view(out@);
                                out.push(e);
                                assert(entries_view(out@) =~= before.push(e@));
                            },
                        }
                    },
                }
            },
        }
        i += 1;
    }
    Some(out)
}

/// Applies one `key=value` entry to `tags`; false when the entry's emote
/// list is malformed, in which case the whole tag block is dropped.
fn apply_entry(tags: &mut IrcTags, entry: &Vec<char>) -> (ok: bool)
    ensures
        ok ==> apply_tag(old(tags)@, entry@) == Some(final(tags)@),
        !ok ==> apply_tag(old(tags)@, entry@) is None,
{
    let (k, v) = match split_once_at(entry, '=') {
        None => {
            return true;
        },
        Some(kv) => kv,
    };
    if same_chars(&k, "color") {
        if v.len() > 0 && v[0] == '#' {
            let digits = slice_of(&v, 1, v.len());
            assert(digits@ =~= v@.drop_first());
            match parse_unsigned_chars(&digits, 16, U32_LIMIT) {
                Some(c) => {
                    tags.color = Some(c as u32);
                },
                None => {},
            }
        }
    } else if same_chars(&k, "first-msg") {
        tags.is_first_message = same_chars(&v, "1");
    } else if same_chars(&k, "display-name") {
        tags.display_name = Some(string_of(v.as_slice()));
    } else if same_chars(&k, "emotes") {
        match parse_emotes(&v) {
            None => {
                return false;
            },
            Some(mut es) => {
                let ghost before = entries_view(tags.emotes@);
                let ghost added = entries_view(es@);
                tags.emotes.append(&mut es);
                assert(entries_view(tags.emotes@) =~= before + added);
            },
        }
    } else if same_chars(&k, "mod") {
        tags.is_mod = same_chars(&v, "1");
    } else if same_chars(&k, "msg-id") {
        tags.is_highlighted = same_chars(&v, "1");
    } else if same_chars(&k, "returning-chatter") {
        tags.is_returning_chatter = same_chars(&v, "1");
    } else if same_chars(&k, "subscriber") {
        tags.is_subscriber = same_chars(&v, "1");
    } else if same_chars(&k, "turbo") {
        tags.is_turbo = same_chars(&v, "1");
    } else if same_chars(&k, "user-id") {
        tags.user_id = match parse_unsigned_chars(&v, 10, U32_LIMIT) {
            Some(n) => n as u32,
            None => 0,
        };
    } else if same_chars(&k, "vip") {
        tags.is_vip = same_chars(&v, "1");
    }
    true
}

/// Parses a tag block (without its `@`); `None` when an emote list in it is malformed.
pub fn parse_tags(raw_tags: &Vec<char>) -> (r: Option<IrcTags>)
    ensures
        match r {
            Some(t) => tags_of(raw_tags@) == Some(t@),
            None => tags_of(raw_tags@) is None,
        },
{
    let mut tags = IrcTags::new();
    let pieces = split_at_char(raw_tags, ';');
    let ghost ps = split(raw_tags@, ';');
    let mut i: usize = 0;
    while i < pieces.len()
        invariant
            i <= pieces.len(),
            ps == split(raw_tags@, ';'),
            pieces@.map_values(|p: Vec<char>| p@) == ps,
            tags_from(tags@, ps, i as int) == tags_of(raw_tags@),
        decreases pieces.len() - i,
    {
        assert(pieces@[i as int]@ == ps[i as int]);
        if !apply_entry(&mut tags, &pieces[i]) {
            return None;
        }
        i += 1;
    }
    Some(tags)
}

/// An emote value `id:a-b`, with `id`, `a` and `b` decimal numbers in range,
/// gives one Twitch emote with that id and the one range `(a, b)`.
pub proof fn lemma_single_emote(id: Seq<char>, a: Seq<char>, b: Seq<char>)
    requires
        decimal_u32(id) is Some,
        decimal_usize(a) is Some,
        decimal_usize(b) is Some,
    ensures
        emotes_of(id + seq![':'] + a + seq!['-'] + b) == Some(
            seq![
                EmoteEntryModel {
                    emote: Emote { server: EmoteServer::Twitch, id: decimal_u32(id)->0 as u32 },
                    ranges: seq![(decimal_usize(a)->0 as usize, decimal_usize(b)->0 as usize)],
                },
            ],
        ),
{
    let rs = a + seq!['-'] + b;
    let v = id + seq![':'] + rs;
    assert(v =~= id + seq![':'] + a + seq!['-'] + b);
    lemma_number_lacks(id, 10, 0xffff_ffff, '/');
    lemma_number_lacks(id, 10, 0xffff_ffff, ':');
    lemma_number_lacks(a, 10, usize::MAX as nat, '/');
    lemma_number_lacks(a, 10, usize::MAX as nat, ',');
    lemma_number_lacks(a, 10, usize::MAX as nat, '-');
    lemma_number_lacks(b, 10, usize::MAX as nat, '/');
    lemma_number_lacks(b, 10, usize::MAX as nat, ',');
    assert forall|k: int| 0 <= k < v.len() implies v[k] != '/' by {
        if k < id.len() {
            assert(v[k] == id[k]);
        } else if k > id.len() && k < id.len() + 1 + a.len() {
            assert(v[k] == a[k - id.len() - 1]);
        } else if k > id.len() + a.len() + 1 {
            assert(v[k] == b[k - id.len() - a.len() - 2]);
        }
    }
    assert forall|k: int| 0 <= k < rs.len() implies rs[k] != ',' by {
        if k < a.len() {
            assert(rs[k] == a[k]);
        } else if k > a.len() {
            assert(rs[k] == b[k - a.len() - 1]);
        }
    }
    lemma_split_without_separator(v, '/');
    lemma_split_once_joined(id, ':', rs);
    lemma_split_without_separator(rs, ',');
    lemma_split_once_joined(a, '-', b);
    let pieces = split(rs, ',');
    let r = (decimal_usize(a)->0 as usize, decimal_usize(b)->0 as usize);
    assert(pieces.len() == 1 && pieces[0] == rs);
    assert(range_of(rs) == Some(r));
    assert(ranges_from(seq![r], pieces, 1) == Some(seq![r]));
    assert(seq![].push(r) =~= seq![r]);
    assert(ranges_of(rs) == Some(seq![r]));
    let e = EmoteEntryModel {
        emote: Emote { server: EmoteServer::Twitch, id: decimal_u32(id)->0 as u32 },
        ranges: seq![(decimal_usize(a)->0 as usize, decimal_usize(b)->0 as usize)],
    };
    let vs = split(v, '/');
    assert(vs.len() == 1 && vs[0] == v);
    assert(seq![].push(e) =~= seq![e]);
    assert(add_emote(seq![], v) == Some(seq![e]));
    assert(emotes_from(seq![e], vs, 1) == Some(seq![e]));
}

/// An entry that fails whatever tags it is applied to.
pub open spec fn fatal_entry(entry: Seq<char>) -> bool {
    exists|v: Seq<char>| split_once(entry, '=') == Some(("emotes"@, v)) && emotes_of(v) is None
}

proof fn lemma_tags_from_fails(t: TagsModel, ps: Seq<Seq<char>>, i: int, j: int)
    requires
        0 <= i <= j < ps.len(),
        fatal_entry(ps[j]),
    ensures
        tags_from(t, ps, i) is None,
    decreases j - i,
{
    if i == j {
        let v = choose|v: Seq<char>| split_once(ps[j], '=') == Some(("emotes"@, v)) && emotes_of(v) is None;
        key_lengths();
        assert(apply_tag(t, ps[j]) is None);
    } else {
        match apply_tag(t, ps[i]) {
            None => {},
            Some(u) => {
                lemma_tags_from_fails(u, ps, i + 1, j);
            },
        }
    }
}

/// A tag block with a malformed emote list gives no tags at all.
pub proof fn lemma_malformed_emotes_drop_tags(raw: Seq<char>, j: int)
    requires
        0 <= j < split(raw, ';').len(),
        fatal_entry(split(raw, ';')[j]),
    ensures
        tags_of(raw) is None,
{
    lemma_tags_from_fails(default_tags(), split(raw, ';'), 0, j);
}

/// Whether the entry `e` has the key `first-msg`.
pub open spec fn is_first_msg_entry(e: Seq<char>) -> bool {
    split_once(e, '=') matches Some((k, _)) && k == "first-msg"@
}

proof fn key_lengths()
    ensures
        "color"@.len() == 5,
        "first-msg"@.len() == 9,
        "display-name"@.len() == 12,
        "emotes"@.len() == 6,
{
    reveal_strlit("color");
    reveal_strlit("first-msg");
    reveal_strlit("display-name");
    reveal_strlit("emotes");
}

proof fn lemma_first_msg_kept(t: TagsModel, e: Seq<char>)
    requires
        !is_first_msg_entry(e),
        apply_tag(t, e) is Some,
    ensures
        apply_tag(t, e)->0.is_first_message == t.is_first_message,
{
}

proof fn lemma_first_msg_from(t: TagsModel, ps: Seq<Seq<char>>, i: int, j: int, v: Seq<char>)
    requires
        0 <= i <= ps.len(),
        j < ps.len(),
        0 <= j ==> split_once(ps[j], '=') == Some(("first-msg"@, v)),
        forall|k: int| 0 <= k < ps.len() && k != j ==> !is_first_msg_entry(#[trigger] ps[k]),
        i > j ==> t.is_first_message == (0 <= j && v == "1"@),
        tags_from(t, ps, i) is Some,
    ensures
        tags_from(t, ps, i)->0.is_first_message == if i <= j {
            v == "1"@
        } else {
            t.is_first_message
        },
    decreases ps.len() - i,
{
    if i < ps.len() {
        let u = apply_tag(t, ps[i])->0;
        key_lengths();
        if i != j {
            lemma_first_msg_kept(t, ps[i]);
        }
        lemma_first_msg_from(u, ps, i + 1, j, v);
    }
}

/// In a tag block that parses and holds one entry `first-msg=v`, the
/// first-message flag is set exactly when `v` is `1`.
pub proof fn lemma_first_msg_flag(raw: Seq<char>, j: int, v: Seq<char>)
    requires
        0 <= j < split(raw, ';').len(),
        split_once(split(raw, ';')[j], '=') == Some(("first-msg"@, v)),
        forall|k: int| 0 <= k < split(raw, ';').len() && k != j ==> !is_first_msg_entry(#[trigger] split(raw, ';')[k]),
        tags_of(raw) is Some,
    ensures
        tags_of(raw)->0.is_first_message == (v == "1"@),
{
    lemma_first_msg_from(default_tags(), split(raw, ';'), 0, j, v);
}

/// In a tag block that parses and has no `first-msg` entry, the
/// first-message flag is not set.
pub proof fn lemma_first_msg_absent(raw: Seq<char>)
    requires
        forall|k: int| 0 <= k < split(raw, ';').len() ==> !is_first_msg_entry(#[trigger] split(raw, ';')[k]),
        tags_of(raw) is Some,
    ensures
        !tags_of(raw)->0.is_first_message,
{
    lemma_first_msg_from(default_tags(), split(raw, ';'), 0, -1, seq![]);
}

} // verus!
