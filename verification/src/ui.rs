//! The chat screen's state, and the parts of drawing it that compute:
//! the colour swatches of an invite code, the invite popup's placement and
//! where a long code is broken.

use vstd::prelude::*;
use vstd::string::StringSliceAdditionalSpecFns;

use crate::bytes_order::{compare_bytes, Cmp};
use crate::message::ChatMessage;
use crate::text::push_char;

verus! {

/// The chat screen's state. Peers are named by the 32 bytes of their
/// endpoint id; `peer_names` holds the display names they announced.
pub struct App {
    pub name: String,
    pub messages: Vec<ChatMessage>,
    pub input: String,
    pub peers: Vec<[u8; 32]>,
    pub selected_peer: usize,
    pub invite: Option<String>,
    pub node_id: Option<String>,
    pub show_invite: bool,
    pub in_call: bool,
    pub muted: bool,
    pub peer_names: Vec<([u8; 32], String)>,
}

impl App {
    /// A screen with no messages, no peers and nothing typed.
    pub fn new() -> (r: App)
        ensures
            r.name@ == Seq::<char>::empty(),
            r.messages@.len() == 0,
            r.input@ == Seq::<char>::empty(),
            r.peers@.len() == 0,
            r.selected_peer == 0,
            r.invite is None,
            r.node_id is None,
            !r.show_invite,
            !r.in_call,
            !r.muted,
            r.peer_names@.len() == 0,
    {
        App {
            name: String::new(),
            messages: Vec::new(),
            input: String::new(),
            peers: Vec::new(),
            selected_peer: 0,
            invite: None,
            node_id: None,
            show_invite: false,
            in_call: false,
            muted: false,
            peer_names: Vec::new(),
        }
    }

    /// How many birds are in the flock: the peers and oneself.
    pub fn bird_count(&self) -> (r: usize)
        requires
            self.peers@.len() < usize::MAX,
        ensures
            r == self.peers@.len() + 1,
    {
        self.peers.len() + 1
    }

    /// Moves the selection to the next peer, wrapping around.
    pub fn select_next_peer(&mut self)
        requires
            old(self).selected_peer < usize::MAX,
        ensures
            old(self).peers@.len() > 0 ==> final(self).selected_peer == (old(self).selected_peer + 1)
                % (old(self).peers@.len() as int),
            old(self).peers@.len() == 0 ==> final(self).selected_peer == old(self).selected_peer,
            final(self).peers == old(self).peers,
            final(self).name == old(self).name,
            final(self).messages == old(self).messages,
            final(self).input == old(self).input,
            final(self).invite == old(self).invite,
            final(self).node_id == old(self).node_id,
            final(self).show_invite == old(self).show_invite,
            final(self).in_call == old(self).in_call,
            final(self).muted == old(self).muted,
            final(self).peer_names == old(self).peer_names,
    {
        if self.peers.len() > 0 {
            self.selected_peer = (self.selected_peer + 1) % self.peers.len();
        }
    }

    /// The endpoint id of the selected peer, if the selection points at one.
    pub fn selected_peer_addr(&self) -> (r: Option<[u8; 32]>)
        ensures
            self.selected_peer < self.peers@.len() ==> r == Some(self.peers@[self.selected_peer as int]),
            self.selected_peer >= self.peers@.len() ==> r is None,
    {
        if self.selected_peer < self.peers.len() {
            Some(self.peers[self.selected_peer])
        } else {
            None
        }
    }

    /// Records the name a peer announced, replacing the name it announced
    /// before: afterwards the peer is shown by that name, every other peer as
    /// before, and each peer still occurs at most once.
    pub fn set_peer_name(&mut self, id: [u8; 32], name: String)
        ensures
            first_name(final(self).peer_names@, id@) == Some(name@),
            forall|x: Seq<u8>| x != id@ ==> first_name(final(self).peer_names@, x) == first_name(
                old(self).peer_names@,
                x,
            ),
            unique_ids(old(self).peer_names@) ==> unique_ids(final(self).peer_names@),
            final(self).peers == old(self).peers,
            final(self).selected_peer == old(self).selected_peer,
            final(self).name == old(self).name,
            final(self).messages == old(self).messages,
            final(self).input == old(self).input,
            final(self).invite == old(self).invite,
            final(self).node_id == old(self).node_id,
            final(self).show_invite == old(self).show_invite,
            final(self).in_call == old(self).in_call,
            final(self).muted == old(self).muted,
    {
        let ghost before = self.peer_names@;
        let mut i: usize = 0;
        while i < self.peer_names.len()
            invariant
                *self == *old(self),
                self.peer_names@ == before,
                i <= before.len(),
                forall|j: int| 0 <= j < i ==> before[j].0@ != id@,
            decreases before.len() - i,
        {
            if compare_bytes(&self.peer_names[i].0, &id) == Cmp::Equal {
                let ghost e = (id, name);
                proof {
                    lemma_first_name_update(before, i as int, e, id@);
                    assert forall|x: Seq<u8>| x != id@ implies first_name(before.update(i as int, e), x)
                        == first_name(before, x) by {
                        lemma_first_name_update(before, i as int, e, x);
                    }
                }
                self.peer_names.set(i, (id, name));
                assert(self.peer_names@ =~= before.update(i as int, e));
                assert forall|a: int, b: int| unique_ids(before) && 0 <= a < b < self.peer_names@.len()
                    implies (#[trigger] self.peer_names@[a]).0@ != (#[trigger] self.peer_names@[b]).0@ by {
                    if a != i && b != i {
                        assert(self.peer_names@[a] == before[a] && self.peer_names@[b] == before[b]);
                    } else if a == i {
                        assert(before[b] == self.peer_names@[b]);
                        assert(before[i as int].0@ != before[b].0@);
                    } else {
                        assert(before[a] == self.peer_names@[a]);
                    }
                }
                return;
            }
            i = i + 1;
        }
        let ghost e = (id, name);
        proof {
            lemma_first_name_push(before, e, id@);
            assert forall|x: Seq<u8>| x != id@ implies first_name(before.push(e), x) == first_name(before, x) by {
                lemma_first_name_push(before, e, x);
            }
        }
        self.peer_names.push((id, name));
        assert(self.peer_names@ =~= before.push(e));
        assert forall|a: int, b: int| unique_ids(before) && 0 <= a < b < self.peer_names@.len()
            implies (#[trigger] self.peer_names@[a]).0@ != (#[trigger] self.peer_names@[b]).0@ by {
            assert(self.peer_names@[a] == before[a]);
            if b < before.len() {
                assert(self.peer_names@[b] == before[b]);
            }
        }
    }

    /// The display name of a peer: the first name it announced, or else the
    /// short form of its id.
    pub fn peer_display_name(&self, id: &[u8; 32]) -> (r: String)
        ensures
            r@ == display_name_spec(self.peer_names@, id@),
    {
        let mut i: usize = 0;
        while i < self.peer_names.len()
            invariant
                i <= self.peer_names@.len(),
                forall|j: int| 0 <= j < i ==> self.peer_names@[j].0@ != id@,
            decreases self.peer_names@.len() - i,
        {
            if compare_bytes(&self.peer_names[i].0, id) == Cmp::Equal {
                proof {
                    lemma_first_name_at(self.peer_names@, id@, i as int);
                }
                return self.peer_names[i].1.clone();
            }
            i = i + 1;
        }
        proof {
            lemma_first_name_none(self.peer_names@, id@);
        }
        short_id(id)
    }
}

/// Each peer occurs at most once among the announced names.
pub open spec fn unique_ids(names: Seq<([u8; 32], String)>) -> bool {
    forall|i: int, j: int| 0 <= i < j < names.len() ==> (#[trigger] names[i]).0@ != (#[trigger] names[j]).0@
}

proof fn lemma_first_name_update(names: Seq<([u8; 32], String)>, i: int, e: ([u8; 32], String), x: Seq<u8>)
    requires
        0 <= i < names.len(),
        names[i].0@ == e.0@,
        forall|j: int| 0 <= j < i ==> names[j].0@ != e.0@,
    ensures
        x == e.0@ ==> first_name(names.update(i, e), x) == Some(e.1@),
        x != e.0@ ==> first_name(names.update(i, e), x) == first_name(names, x),
    decreases i,
{
    let u = names.update(i, e);
    if i > 0 {
        assert(u.drop_first() =~= names.drop_first().update(i - 1, e));
        assert(u[0] == names[0]);
        assert forall|j: int| 0 <= j < i - 1 implies names.drop_first()[j].0@ != e.0@ by {
            assert(names.drop_first()[j] == names[j + 1]);
        }
        lemma_first_name_update(names.drop_first(), i - 1, e, x);
    } else {
        assert(u.drop_first() =~= names.drop_first());
        assert(u[0] == e);
    }
}

proof fn lemma_first_name_push(names: Seq<([u8; 32], String)>, e: ([u8; 32], String), x: Seq<u8>)
    requires
        forall|j: int| 0 <= j < names.len() ==> names[j].0@ != e.0@,
    ensures
        x == e.0@ ==> first_name(names.push(e), x) == Some(e.1@),
        x != e.0@ ==> first_name(names.push(e), x) == first_name(names, x),
    decreases names.len(),
{
    let p = names.push(e);
    if names.len() > 0 {
        assert(p.drop_first() =~= names.drop_first().push(e));
        assert(p[0] == names[0]);
        assert forall|j: int| 0 <= j < names.drop_first().len() implies names.drop_first()[j].0@ != e.0@ by {
            assert(names.drop_first()[j] == names[j + 1]);
        }
        lemma_first_name_push(names.drop_first(), e, x);
        if names[0].0@ == x {
            assert(first_name(p, x) == Some(names[0].1@));
        } else {
            assert(first_name(p, x) == first_name(p.drop_first(), x));
        }
    } else {
        assert(p.drop_first() =~= Seq::<([u8; 32], String)>::empty());
        assert(p[0] == e);
        assert(first_name(Seq::<([u8; 32], String)>::empty(), x) is None);
        if x != e.0@ {
            assert(first_name(p, x) == first_name(p.drop_first(), x));
        }
    }
}

/// The first name announced for `id` in `names`, if any.
pub open spec fn first_name(names: Seq<([u8; 32], String)>, id: Seq<u8>) -> Option<Seq<char>>
    decreases names.len(),
{
    if names.len() == 0 {
        None
    } else if names[0].0@ == id {
        Some(names[0].1@)
    } else {
        first_name(names.drop_first(), id)
    }
}

proof fn lemma_first_name_at(names: Seq<([u8; 32], String)>, id: Seq<u8>, i: int)
    requires
        0 <= i < names.len(),
        names[i].0@ == id,
        forall|j: int| 0 <= j < i ==> names[j].0@ != id,
    ensures
        first_name(names, id) == Some(names[i].1@),
    decreases i,
{
    if i > 0 {
        lemma_first_name_at(names.drop_first(), id, i - 1);
    }
}

proof fn lemma_first_name_none(names: Seq<([u8; 32], String)>, id: Seq<u8>)
    requires
        forall|j: int| 0 <= j < names.len() ==> names[j].0@ != id,
    ensures
        first_name(names, id) is None,
    decreases names.len(),
{
    if names.len() > 0 {
        lemma_first_name_none(names.drop_first(), id);
    }
}

/// The lowercase hexadecimal digit for a value below 16.
pub open spec fn hex_digit(n: u8) -> char {
    if n < 10 {
        (48 + n) as char
    } else {
        (87 + n) as char
    }
}

/// The short form of an endpoint id: its first 5 bytes in lowercase hex.
pub open spec fn short_id_spec(id: Seq<u8>) -> Seq<char> {
    Seq::new(10, |i: int| if i % 2 == 0 { hex_digit(id[i / 2] / 16) } else { hex_digit(id[i / 2] % 16) })
}

/// How a peer is shown.
pub open spec fn display_name_spec(names: Seq<([u8; 32], String)>, id: Seq<u8>) -> Seq<char> {
    match first_name(names, id) {
        Some(n) => n,
        None => short_id_spec(id),
    }
}

fn hex_char(n: u8) -> (c: char)
    requires
        n < 16,
    ensures
        c == hex_digit(n),
{
    if n < 10 {
        ((48 + n) as u8) as char
    } else {
        ((87 + n) as u8) as char
    }
}

/// The short form of an endpoint id, as `PublicKey::fmt_short` writes it:
/// the first 5 bytes in lowercase hex.
pub fn short_id(id: &[u8; 32]) -> (r: String)
    ensures
        r@ == short_id_spec(id@),
{
    let mut s = String::new();
    let mut i: usize = 0;
    while i < 5
        invariant
            i <= 5,
            id@.len() == 32,
            s@ == short_id_spec(id@).subrange(0, 2 * i as int),
        decreases 5 - i,
    {
        let b = id[i];
        push_char(&mut s, hex_char(b / 16));
        push_char(&mut s, hex_char(b % 16));
        assert(s@ =~= short_id_spec(id@).subrange(0, 2 * (i + 1) as int));
        i = i + 1;
    }
    assert(s@ =~= short_id_spec(id@));
    s
}

/// The status line under the messages.
pub fn status_text(in_call: bool, muted: bool) -> (r: &'static str)
    ensures
        in_call && muted ==> r@ == " in call . muted . Ctrl+K to hang up"@,
        in_call && !muted ==> r@ == " in call . live . Ctrl+K to hang up"@,
        !in_call ==> r@ == " idle . Ctrl+K to call . Tab to cycle . Ctrl+M to mute . i = invite"@,
{
    if in_call {
        if muted {
            " in call . muted . Ctrl+K to hang up"
        } else {
            " in call . live . Ctrl+K to hang up"
        }
    } else {
        " idle . Ctrl+K to call . Tab to cycle . Ctrl+M to mute . i = invite"
    }
}

/// The groups of `s` between dashes, as `str::split('-')` yields them.
pub open spec fn split_dash(s: Seq<u8>) -> Seq<Seq<u8>>
    decreases s.len(),
{
    if s.len() == 0 {
        seq![Seq::<u8>::empty()]
    } else {
        let g = split_dash(s.drop_last());
        if s.last() == 0x2du8 {
            g.push(Seq::<u8>::empty())
        } else {
            g.update(g.len() - 1, g.last().push(s.last()))
        }
    }
}

pub proof fn lemma_split_dash_nonempty(s: Seq<u8>)
    ensures
        split_dash(s).len() >= 1,
    decreases s.len(),
{
    if s.len() > 0 {
        lemma_split_dash_nonempty(s.drop_last());
    }
}

/// The value of a hexadecimal digit byte.
pub open spec fn hex_val(b: u8) -> Option<u8> {
    if 0x30 <= b && b <= 0x39 {
        Some((b - 0x30) as u8)
    } else if 0x61 <= b && b <= 0x66 {
        Some((b - 0x57) as u8)
    } else if 0x41 <= b && b <= 0x46 {
        Some((b - 0x37) as u8)
    } else {
        None
    }
}

/// What `u8::from_str_radix(_, 16)` reads from two bytes: two hex digits,
/// or a `+` sign and one.
pub open spec fn pair_val(b0: u8, b1: u8) -> Option<u8> {
    if b0 == 0x2bu8 {
        hex_val(b1)
    } else {
        match (hex_val(b0), hex_val(b1)) {
            (Some(h), Some(l)) => Some((16 * h + l) as u8),
            _ => None,
        }
    }
}

/// The colour a group of an invite code stands for: a group of 6 bytes
/// other than `BIRD` whose three pairs all read as hex.
pub open spec fn group_color(g: Seq<u8>) -> Option<(u8, u8, u8)> {
    if g.len() != 6 {
        None
    } else {
        match (pair_val(g[0], g[1]), pair_val(g[2], g[3]), pair_val(g[4], g[5])) {
            (Some(r), Some(gr), Some(b)) => Some((r, gr, b)),
            _ => None,
        }
    }
}

/// The colours of the groups that stand for one, in order.
pub open spec fn colors_of(groups: Seq<Seq<u8>>) -> Seq<(u8, u8, u8)>
    decreases groups.len(),
{
    if groups.len() == 0 {
        Seq::empty()
    } else {
        match group_color(groups.last()) {
            Some(c) => colors_of(groups.drop_last()).push(c),
            None => colors_of(groups.drop_last()),
        }
    }
}

/// Slicing the pairs of each 6-byte group at bytes 2 and 4 falls on
/// character boundaries.
pub open spec fn pairs_on_boundaries(s: Seq<u8>) -> bool {
    forall|i: int|
        0 <= i < split_dash(s).len() && (#[trigger] split_dash(s)[i]).len() == 6 ==> !vstd::utf8::is_continuation_byte(
            split_dash(s)[i][2],
        ) && !vstd::utf8::is_continuation_byte(split_dash(s)[i][4])
}

fn hex_val_exec(b: u8) -> (r: Option<u8>)
    ensures
        r == hex_val(b),
{
    if b >= 0x30 && b <= 0x39 {
        Some(b - 0x30)
    } else if b >= 0x61 && b <= 0x66 {
        Some(b - 0x57)
    } else if b >= 0x41 && b <= 0x46 {
        Some(b - 0x37)
    } else {
        None
    }
}

fn pair_val_exec(b0: u8, b1: u8) -> (r: Option<u8>)
    ensures
        r == pair_val(b0, b1),
{
    if b0 == 0x2b {
        hex_val_exec(b1)
    } else {
        match (hex_val_exec(b0), hex_val_exec(b1)) {
            (Some(h), Some(l)) => Some(16 * h + l),
            _ => None,
        }
    }
}

fn group_color_exec(bytes: &[u8], start: usize, end: usize) -> (r: Option<(u8, u8, u8)>)
    requires
        start <= end <= bytes@.len(),
    ensures
        r == group_color(bytes@.subrange(start as int, end as int)),
{
    let ghost g = bytes@.subrange(start as int, end as int);
    if end - start != 6 {
        return None;
    }
    assert(g[0] == bytes@[start as int] && g[1] == bytes@[start + 1]);
    assert(g[2] == bytes@[start + 2] && g[3] == bytes@[start + 3]);
    assert(g[4] == bytes@[start + 4] && g[5] == bytes@[start + 5]);
    match (
        pair_val_exec(bytes[start], bytes[start + 1]),
        pair_val_exec(bytes[start + 2], bytes[start + 3]),
        pair_val_exec(bytes[start + 4], bytes[start + 5]),
    ) {
        (Some(r), Some(gr), Some(b)) => Some((r, gr, b)),
        _ => None,
    }
}

/// The colour swatches of an invite code: one for each dash-separated group
/// of six hex digits (two per channel), in order.
pub fn parse_color_code(code: &str) -> (r: Vec<(u8, u8, u8)>)
    requires
        pairs_on_boundaries(code.spec_bytes()),
    ensures
        r@ == colors_of(split_dash(code.spec_bytes())),
{
    let bytes = code.as_bytes();
    let n = bytes.len();
    let mut out: Vec<(u8, u8, u8)> = Vec::new();
    let mut start: usize = 0;
    let mut i: usize = 0;
    proof {
        assert(bytes@.subrange(0, 0) =~= Seq::<u8>::empty());
    }
    while i < n
        invariant
            n == bytes@.len(),
            start <= i <= n,
            split_dash(bytes@.subrange(0, i as int)).len() >= 1,
            out@ == colors_of(split_dash(bytes@.subrange(0, i as int)).drop_last()),
            split_dash(bytes@.subrange(0, i as int)).last() == bytes@.subrange(start as int, i as int),
        decreases n - i,
    {
        let ghost pre = bytes@.subrange(0, i as int);
        let ghost next = bytes@.subrange(0, i + 1);
        proof {
            assert(next.drop_last() =~= pre);
            lemma_split_dash_nonempty(pre);
        }
        if bytes[i] == 0x2d {
            let c = group_color_exec(bytes, start, i);
            proof {
                let g = split_dash(pre);
                assert(split_dash(next) == g.push(Seq::<u8>::empty()));
                assert(split_dash(next).drop_last() =~= g);
                assert(g.drop_last().push(g.last()) =~= g);
            }
            match c {
                Some(col) => {
                    out.push(col);
                },
                None => {},
            }
            start = i + 1;
            proof {
                assert(bytes@.subrange(start as int, i + 1) =~= Seq::<u8>::empty());
            }
        } else {
            proof {
                let g = split_dash(pre);
                assert(split_dash(next) == g.update(g.len() - 1, g.last().push(bytes@[i as int])));
                assert(split_dash(next).drop_last() =~= g.drop_last());
                assert(bytes@.subrange(start as int, i + 1) =~= bytes@.subrange(start as int, i as int).push(
                    bytes@[i as int],
                ));
            }
        }
        i = i + 1;
    }
    let c = group_color_exec(bytes, start, n);
    proof {
        assert(bytes@.subrange(0, n as int) =~= bytes@);
        let g = split_dash(bytes@);
        assert(g.drop_last().push(g.last()) =~= g);
    }
    match c {
        Some(col) => {
            out.push(col);
        },
        None => {},
    }
    out
}

/// A rectangle of the terminal.
#[derive(Clone, Copy, Debug, PartialEq, Eq, Structural)]
pub struct Area {
    pub x: u16,
    pub y: u16,
    pub width: u16,
    pub height: u16,
}

/// The width the invite popup wants: room for the swatches (three columns
/// each) or the code, at least 40 columns, plus 4 for the border and margin.
pub open spec fn popup_content_width(colors: nat, code_len: nat) -> int {
    let w: int = if 3 * colors > code_len { (3 * colors) as int } else { code_len as int };
    (if w > 40 { w } else { 40 }) + 4
}

/// Where the invite popup goes: its wanted width and at most 12 rows,
/// both capped by the area, centred in the area.
pub open spec fn invite_popup_spec(area: Area, colors: nat, code_len: nat) -> Area {
    let cw = popup_content_width(colors, code_len);
    let width = if cw < area.width { cw } else { area.width as int };
    let height = if 12 < area.height { 12 } else { area.height as int };
    Area {
        x: (area.x + (area.width - width) / 2) as u16,
        y: (area.y + (area.height - height) / 2) as u16,
        width: width as u16,
        height: height as u16,
    }
}

/// Places the invite popup for a code of `code_len` bytes with `colors`
/// swatches.
pub fn invite_popup_area(area: Area, colors: usize, code_len: usize) -> (r: Area)
    requires
        area.x + area.width <= u16::MAX,
        area.y + area.height <= u16::MAX,
    ensures
        r == invite_popup_spec(area, colors as nat, code_len as nat),
{
    let aw = area.width as usize;
    let width: u16 = if colors >= 0x10000 || code_len >= 0x10000 {
        area.width
    } else {
        let swatches = 3 * colors;
        let w = if swatches > code_len { swatches } else { code_len };
        let w = if w > 40 { w } else { 40 };
        let content = w + 4;
        if content < aw {
            content as u16
        } else {
            area.width
        }
    };
    let height: u16 = if 12 < area.height { 12 } else { area.height };
    Area {
        x: area.x + (area.width - width) / 2,
        y: area.y + (area.height - height) / 2,
        width,
        height,
    }
}

/// The index of the first dash of `b` at or after `k`, or -1.
pub open spec fn first_dash_from(b: Seq<u8>, k: int) -> int
    decreases b.len() - k,
{
    if k < 0 || k >= b.len() {
        -1
    } else if b[k] == 0x2du8 {
        k
    } else {
        first_dash_from(b, k + 1)
    }
}

/// Where a long invite code is broken over two lines: at the first dash
/// from the middle on, or at the middle; a code of at most 40 bytes is not
/// broken (the break is at its end).
pub open spec fn code_break_spec(b: Seq<u8>) -> int {
    if b.len() > 40 {
        let f = first_dash_from(b, (b.len() / 2) as int);
        if f >= 0 {
            f
        } else {
            (b.len() / 2) as int
        }
    } else {
        b.len() as int
    }
}

/// The byte index at which the invite popup breaks a long code.
pub fn invite_code_break(code: &str) -> (r: usize)
    requires
        code.spec_bytes().len() > 40 ==> vstd::utf8::is_char_boundary(
            code.spec_bytes(),
            (code.spec_bytes().len() / 2) as int,
        ),
    ensures
        r == code_break_spec(code.spec_bytes()),
{
    let b = code.as_bytes();
    let n = b.len();
    if n <= 40 {
        return n;
    }
    let mid = n / 2;
    let mut j = mid;
    while j < n
        invariant
            mid <= j <= n,
            n > 40,
            n == b@.len(),
            b@ == code.spec_bytes(),
            mid == n / 2,
            first_dash_from(b@, mid as int) == first_dash_from(b@, j as int),
        decreases n - j,
    {
        if b[j] == 0x2d {
            assert(first_dash_from(b@, j as int) == j as int);
            return j;
        }
        j = j + 1;
    }
    mid
}

} // verus!
