//! The color that chat shows for each name: drawn once from a fixed palette
//! and kept for the life of the table.
use vstd::prelude::*;

verus! {

/// The fifteen colors that new names are given, in order.
pub open spec fn palette() -> Seq<u32> {
    seq![
        0xFF0000u32, 0x0000FF, 0x008000, 0xB22222, 0xFF7F50, 0x9ACD32, 0xFF4500, 0x2E8B57,
        0xDAA520, 0xD2691E, 0x5F9EA0, 0x1E90FF, 0xFF69B4, 0x8A2BE2, 0x00FF7F,
    ]
}

/// Whether `c` is one of the palette colors.
pub open spec fn is_palette_color(c: u32) -> bool {
    palette().contains(c)
}

/// The number of palette colors.
pub const PALETTE_LEN: usize = 15;

/// The palette color at index `i`.
pub fn palette_color(i: usize) -> (r: u32)
    requires
        i < PALETTE_LEN,
    ensures
        r == palette()[i as int],
        is_palette_color(r),
{
    assert(palette().len() == PALETTE_LEN);
    let r: u32 = match i {
        0 => 0xFF0000,
        1 => 0x0000FF,
        2 => 0x008000,
        3 => 0xB22222,
        4 => 0xFF7F50,
        5 => 0x9ACD32,
        6 => 0xFF4500,
        7 => 0x2E8B57,
        8 => 0xDAA520,
        9 => 0xD2691E,
        10 => 0x5F9EA0,
        11 => 0x1E90FF,
        12 => 0xFF69B4,
        13 => 0x8A2BE2,
        _ => 0x00FF7F,
    };
    assert(palette()[i as int] == r);
    r
}

/// Relies on `fastrand::usize`: a value drawn from the range `..n`, which
/// is not empty, so the call does not panic.
#[verifier::external_body]
fn random_below(n: usize) -> (r: usize)
    requires
        n > 0,
    ensures
        r < n,
{
    fastrand::usize(..n)
}

/// A table from names to colors, with at most one entry per name.
pub struct ColorTable {
    entries: Vec<(String, u32)>,
}

/// The map that a list of entries gives, later entries over earlier ones.
pub open spec fn map_of(es: Seq<(String, u32)>) -> Map<Seq<char>, u32>
    decreases es.len(),
{
    if es.len() == 0 {
        Map::empty()
    } else {
        map_of(es.drop_last()).insert(es.last().0@, es.last().1)
    }
}

/// No two entries have the same name.
pub open spec fn unique_names(es: Seq<(String, u32)>) -> bool {
    forall|i: int, j: int| 0 <= i < j < es.len() ==> es[i].0@ != es[j].0@
}

proof fn lemma_map_of_lookup(es: Seq<(String, u32)>, k: Seq<char>)
    requires
        unique_names(es),
    ensures
        map_of(es).contains_key(k) <==> exists|i: int| 0 <= i < es.len() && es[i].0@ == k,
        forall|i: int| 0 <= i < es.len() && es[i].0@ == k ==> map_of(es)[k] == es[i].1,
    decreases es.len(),
{
    if es.len() > 0 {
        let p = es.drop_last();
        assert(unique_names(p));
        lemma_map_of_lookup(p, k);
        if map_of(es).contains_key(k) && es.last().0@ != k {
            let i = choose|i: int| 0 <= i < p.len() && p[i].0@ == k;
            assert(es[i].0@ == k);
        }
        if exists|i: int| 0 <= i < es.len() && es[i].0@ == k {
            let i = choose|i: int| 0 <= i < es.len() && es[i].0@ == k;
            if i < es.len() - 1 {
                assert(p[i].0@ == k);
            }
        }
    }
}

proof fn lemma_map_of_update(es: Seq<(String, u32)>, i: int, e: (String, u32))
    requires
        unique_names(es),
        0 <= i < es.len(),
        es[i].0@ == e.0@,
    ensures
        map_of(es.update(i, e)) == map_of(es).insert(e.0@, e.1),
        unique_names(es.update(i, e)),
    decreases es.len(),
{
    let u = es.update(i, e);
    if i == es.len() - 1 {
        assert(u.drop_last() =~= es.drop_last());
        assert(map_of(u) =~= map_of(es).insert(e.0@, e.1));
    } else {
        let p = es.drop_last();
        assert(unique_names(p));
        lemma_map_of_update(p, i, e);
        assert(u.drop_last() =~= p.update(i, e));
        assert(es.last().0@ != e.0@);
        assert(map_of(u) =~= map_of(es).insert(e.0@, e.1));
    }
}

impl ColorTable {
    /// The names and the color of each.
    pub closed spec fn view(&self) -> Map<Seq<char>, u32> {
        map_of(self.entries@)
    }

    pub closed spec fn wf(&self) -> bool {
        unique_names(self.entries@)
    }

    /// An empty table.
    pub fn new() -> (r: ColorTable)
        ensures
            r.wf(),
            r.view() == Map::<Seq<char>, u32>::empty(),
    {
        ColorTable { entries: Vec::new() }
    }

    /// The color of `name`, if the table holds one.
    pub fn get(&self, name: &String) -> (r: Option<u32>)
        requires
            self.wf(),
        ensures
            match r {
                Some(c) => self.view().contains_key(name@) && self.view()[name@] == c,
                None => !self.view().contains_key(name@),
            },
    {
        proof {
            lemma_map_of_lookup(self.entries@, name@);
        }
        let mut i: usize = 0;
        while i < self.entries.len()
            invariant
                i <= self.entries.len(),
                unique_names(self.entries@),
                forall|j: int| 0 <= j < i ==> self.entries@[j].0@ != name@,
            decreases self.entries.len() - i,
        {
            if self.entries[i].0 == *name {
                proof {
                    lemma_map_of_lookup(self.entries@, name@);
                }
                return Some(self.entries[i].1);
            }
            i += 1;
        }
        None
    }

    /// Records `color` for `name`, over any color it had.
    pub fn set(&mut self, name: &String, color: u32)
        requires
            old(self).wf(),
        ensures
            final(self).wf(),
            final(self).view() == old(self).view().insert(name@, color),
    {
        proof {
            lemma_map_of_lookup(self.entries@, name@);
        }
        let mut i: usize = 0;
        while i < self.entries.len()
            invariant
                i <= self.entries.len(),
                self.entries@ == old(self).entries@,
                unique_names(self.entries@),
                forall|j: int| 0 <= j < i ==> self.entries@[j].0@ != name@,
            decreases self.entries.len() - i,
        {
            if self.entries[i].0 == *name {
                let e = (name.clone(), color);
                proof {
                    lemma_map_of_update(self.entries@, i as int, e);
                }
                self.entries.set(i, e);
                return;
            }
            i += 1;
        }
        let e = (name.clone(), color);
        let ghost before = self.entries@;
        self.entries.push(e);
        assert(self.entries@.drop_last() =~= before);
    }
}

/// What a lookup of `name` may do: a known name gives its color and leaves the
/// table as it is; a new one gets a palette color, which the table then keeps.
pub open spec fn color_step(
    before: Map<Seq<char>, u32>,
    name: Seq<char>,
    color: u32,
    after: Map<Seq<char>, u32>,
) -> bool {
    if before.contains_key(name) {
        color == before[name] && after == before
    } else {
        is_palette_color(color) && after == before.insert(name, color)
    }
}

/// The color of `username`; a name seen for the first time gets a color
/// drawn at random from the palette, and keeps it.
pub fn get_user_color(table: &mut ColorTable, username: &String) -> (r: u32)
    requires
        old(table).wf(),
    ensures
        final(table).wf(),
        color_step(old(table).view(), username@, r, final(table).view()),
{
    match table.get(username) {
        Some(c) => c,
        None => {
            let c = palette_color(random_below(PALETTE_LEN));
            set_user_color(table, username, c)
        },
    }
}

/// Gives `k` the color `color`, over any it had, and returns `color`.
pub fn set_user_color(table: &mut ColorTable, k: &String, color: u32) -> (r: u32)
    requires
        old(table).wf(),
    ensures
        r == color,
        final(table).wf(),
        final(table).view() == old(table).view().insert(k@, color),
{
    table.set(k, color);
    color
}

/// A name's color does not change from one lookup to the next: a second
/// lookup of the same name gives the color of the first and leaves the table.
pub proof fn lemma_color_lookup_idempotent(
    t0: Map<Seq<char>, u32>,
    name: Seq<char>,
    c1: u32,
    t1: Map<Seq<char>, u32>,
    c2: u32,
    t2: Map<Seq<char>, u32>,
)
    requires
        color_step(t0, name, c1, t1),
        color_step(t1, name, c2, t2),
    ensures
        c2 == c1,
        t2 == t1,
{
}

} // verus!
