//! Paint order of a retained UI draw list.
//!
//! Every primitive of a draw list is painted through one paint command. The
//! commands are painted by ascending `z_index`; primitives on one layer keep
//! the order in which they were emitted (their `sequence`).

use vstd::prelude::*;

verus! {

/// One primitive of a draw list, named by its kind and its index in the list
/// of that kind.
#[derive(Debug, Clone, Copy, PartialEq, Eq, Structural)]
pub enum UiSurfacePaintCommand {
    Solid { index: usize, z_index: i16, sequence: u32 },
    Text { index: usize, z_index: i16, sequence: u32 },
    Image { index: usize, z_index: i16, sequence: u32 },
}

impl UiSurfacePaintCommand {
    pub open spec fn z_index_spec(self) -> i16 {
        match self {
            UiSurfacePaintCommand::Solid { z_index, .. } => z_index,
            UiSurfacePaintCommand::Text { z_index, .. } => z_index,
            UiSurfacePaintCommand::Image { z_index, .. } => z_index,
        }
    }

    pub open spec fn sequence_spec(self) -> u32 {
        match self {
            UiSurfacePaintCommand::Solid { sequence, .. } => sequence,
            UiSurfacePaintCommand::Text { sequence, .. } => sequence,
            UiSurfacePaintCommand::Image { sequence, .. } => sequence,
        }
    }

    /// The layer the primitive is painted on.
    pub fn z_index(self) -> (z: i16)
        ensures
            z == self.z_index_spec(),
    {
        match self {
            UiSurfacePaintCommand::Solid { z_index, .. } => z_index,
            UiSurfacePaintCommand::Text { z_index, .. } => z_index,
            UiSurfacePaintCommand::Image { z_index, .. } => z_index,
        }
    }

    /// The emission order of the primitive within its draw list.
    pub fn sequence(self) -> (s: u32)
        ensures
            s == self.sequence_spec(),
    {
        match self {
            UiSurfacePaintCommand::Solid { sequence, .. } => sequence,
            UiSurfacePaintCommand::Text { sequence, .. } => sequence,
            UiSurfacePaintCommand::Image { sequence, .. } => sequence,
        }
    }
}

/// `a` is painted no later than `b`: the key `(z_index, sequence)` of `a` is
/// lexicographically at most that of `b`.
pub open spec fn paints_before(a: UiSurfacePaintCommand, b: UiSurfacePaintCommand) -> bool {
    a.z_index_spec() < b.z_index_spec() || (a.z_index_spec() == b.z_index_spec()
        && a.sequence_spec() <= b.sequence_spec())
}

/// `a` and `b` have the same key `(z_index, sequence)`.
pub open spec fn same_paint_key(a: UiSurfacePaintCommand, b: UiSurfacePaintCommand) -> bool {
    a.z_index_spec() == b.z_index_spec() && a.sequence_spec() == b.sequence_spec()
}

/// The commands are in paint order.
pub open spec fn is_paint_ordered(s: Seq<UiSurfacePaintCommand>) -> bool {
    forall|i: int, j: int| 0 <= i < j < s.len() ==> paints_before(#[trigger] s[i], #[trigger] s[j])
}

/// `dst` is `src` rearranged, `dst[k]` being `src[pos[k]]`, and commands with
/// the same key keep their relative order.
pub open spec fn is_stable_rearrangement(
    src: Seq<UiSurfacePaintCommand>,
    dst: Seq<UiSurfacePaintCommand>,
    pos: Seq<int>,
) -> bool {
    &&& dst.len() == src.len()
    &&& pos.len() == src.len()
    &&& forall|k: int| 0 <= k < dst.len() ==> 0 <= #[trigger] pos[k] < src.len() && dst[k] == src[pos[k]]
    &&& forall|k: int, l: int| 0 <= k < l < dst.len() ==> #[trigger] pos[k] != #[trigger] pos[l]
    &&& forall|k: int, l: int|
        0 <= k < l < dst.len() && same_paint_key(#[trigger] dst[k], #[trigger] dst[l]) ==> pos[k] < pos[l]
}

/// `dst` is the stable sort of `src` by `(z_index, sequence)`.
pub open spec fn is_stable_paint_sort(
    src: Seq<UiSurfacePaintCommand>,
    dst: Seq<UiSurfacePaintCommand>,
) -> bool {
    &&& is_paint_ordered(dst)
    &&& exists|pos: Seq<int>| #[trigger] is_stable_rearrangement(src, dst, pos)
}

/// Sorts commands into paint order by `(z_index, sequence)`, keeping the
/// relative order of commands with equal keys.
pub fn sort_paint_order(commands: &mut Vec<UiSurfacePaintCommand>)
    ensures
        is_stable_paint_sort(old(commands)@, final(commands)@),
{
    let n: usize = commands.len();
    let mut out: Vec<UiSurfacePaintCommand> = Vec::new();
    let ghost mut pos: Seq<int> = Seq::empty();
    let mut i: usize = 0;
    while i < n
        invariant
            n == commands@.len(),
            0 <= i <= n,
            out@.len() == i,
            pos.len() == i,
            is_paint_ordered(out@),
            forall|k: int| 0 <= k < i ==> 0 <= #[trigger] pos[k] < i && out@[k] == commands@[pos[k]],
            forall|k: int, l: int| 0 <= k < l < i ==> #[trigger] pos[k] != #[trigger] pos[l],
            forall|k: int, l: int|
                0 <= k < l < i && same_paint_key(#[trigger] out@[k], #[trigger] out@[l]) ==> pos[k] < pos[l],
        decreases n - i,
    {
        let c = commands[i];
        let cz = c.z_index();
        let cs = c.sequence();
        let mut p: usize = out.len();
        while p > 0
            invariant
                0 <= p <= out@.len(),
                cz == c.z_index_spec(),
                cs == c.sequence_spec(),
                forall|l: int| p <= l < out@.len() ==> !paints_before(#[trigger] out@[l], c),
            ensures
                0 <= p <= out@.len(),
                forall|l: int| p <= l < out@.len() ==> !paints_before(#[trigger] out@[l], c),
                p == 0 || paints_before(out@[p - 1], c),
            decreases p,
        {
            let prev = out[p - 1];
            let pz = prev.z_index();
            let ps = prev.sequence();
            if pz < cz || (pz == cz && ps <= cs) {
                break;
            }
            p = p - 1;
        }
        proof {
            // Everything left of `p` is painted no later than `c`.
            assert forall|k: int| 0 <= k < p implies paints_before(#[trigger] out@[k], c) by {
                if k < p - 1 {
                    assert(paints_before(out@[k], out@[p - 1]));
                }
            }
        }
        let ghost old_out = out@;
        let ghost old_pos = pos;
        out.insert(p, c);
        proof {
            pos = old_pos.insert(p as int, i as int);
            old_out.insert_ensures(p as int, c);
            old_pos.insert_ensures(p as int, i as int);
            assert forall|k: int, l: int| 0 <= k < l < out@.len() implies paints_before(
                #[trigger] out@[k],
                #[trigger] out@[l],
            ) by {
                if l < p {
                    assert(out@[k] == old_out[k] && out@[l] == old_out[l]);
                } else if l == p {
                    assert(out@[k] == old_out[k]);
                } else if k < p {
                    assert(out@[k] == old_out[k] && out@[l] == old_out[l - 1]);
                    assert(!paints_before(old_out[l - 1], c));
                    assert(paints_before(old_out[k], c));
                } else if k == p {
                    assert(out@[l] == old_out[l - 1]);
                    assert(!paints_before(old_out[l - 1], c));
                } else {
                    assert(out@[k] == old_out[k - 1] && out@[l] == old_out[l - 1]);
                    assert(paints_before(old_out[k - 1], old_out[l - 1]));
                }
            }
            assert forall|k: int| 0 <= k < i + 1 implies 0 <= #[trigger] pos[k] < i + 1
                && out@[k] == commands@[pos[k]] by {
                if k < p {
                    assert(pos[k] == old_pos[k]);
                } else if k > p {
                    assert(pos[k] == old_pos[k - 1]);
                    assert(out@[k] == old_out[k - 1]);
                }
            }
            assert forall|k: int, l: int| 0 <= k < l < i + 1 implies #[trigger] pos[k]
                != #[trigger] pos[l] by {
                if k != p && l != p {
                    let ok = if k < p { k } else { k - 1 };
                    let ol = if l < p { l } else { l - 1 };
                    assert(pos[k] == old_pos[ok] && pos[l] == old_pos[ol]);
                    assert(ok < ol);
                }
            }
            assert forall|k: int, l: int|
                0 <= k < l < i + 1 && same_paint_key(
                    #[trigger] out@[k],
                    #[trigger] out@[l],
                ) implies pos[k] < pos[l] by {
                if k != p && l != p {
                    let ok = if k < p { k } else { k - 1 };
                    let ol = if l < p { l } else { l - 1 };
                    assert(pos[k] == old_pos[ok] && pos[l] == old_pos[ol]);
                    assert(out@[k] == old_out[ok] && out@[l] == old_out[ol]);
                    assert(ok < ol);
                } else if k == p {
                    assert(out@[l] == old_out[l - 1]);
                    assert(!paints_before(old_out[l - 1], c));
                }
            }
        }
        i = i + 1;
    }
    proof {
        assert(is_stable_rearrangement(commands@, out@, pos));
    }
    *commands = out;
}

/// The sequence number of the `k`-th emitted command: the emission counter
/// wraps at `u32::MAX`.
pub open spec fn emission_sequence(k: int) -> u32 {
    (k % 0x1_0000_0000) as u32
}

/// The command of the `k`-th primitive of a draw list that carries no paint
/// order of its own: its solids first, then its text, then its images, each
/// with the `z_index` of its primitive.
pub open spec fn legacy_command(
    solid_z: Seq<i16>,
    text_z: Seq<i16>,
    image_z: Seq<i16>,
    k: int,
) -> UiSurfacePaintCommand {
    if k < solid_z.len() {
        UiSurfacePaintCommand::Solid {
            index: k as usize,
            z_index: solid_z[k],
            sequence: emission_sequence(k),
        }
    } else if k < solid_z.len() + text_z.len() {
        UiSurfacePaintCommand::Text {
            index: (k - solid_z.len()) as usize,
            z_index: text_z[k - solid_z.len()],
            sequence: emission_sequence(k),
        }
    } else {
        UiSurfacePaintCommand::Image {
            index: (k - solid_z.len() - text_z.len()) as usize,
            z_index: image_z[k - solid_z.len() - text_z.len()],
            sequence: emission_sequence(k),
        }
    }
}

/// The commands of such a draw list in emission order.
pub open spec fn legacy_commands(
    solid_z: Seq<i16>,
    text_z: Seq<i16>,
    image_z: Seq<i16>,
) -> Seq<UiSurfacePaintCommand> {
    Seq::new(
        solid_z.len() + text_z.len() + image_z.len(),
        |k: int| legacy_command(solid_z, text_z, image_z, k),
    )
}

proof fn lemma_next_sequence(k: int, s: u32)
    requires
        0 <= k,
        s == emission_sequence(k),
    ensures
        s.wrapping_add(1) == emission_sequence(k + 1),
{
    assert((k + 1) % 0x1_0000_0000 == if k % 0x1_0000_0000 == 0xffff_ffff {
        0
    } else {
        k % 0x1_0000_0000 + 1
    }) by (nonlinear_arith)
        requires
            0 <= k,
    ;
}

/// The paint order of a draw list built without one, from the `z_index` of
/// each of its solids, text runs and images: solids, then text, then images
/// are numbered in that order and stably sorted by `(z_index, sequence)`.
pub fn legacy_paint_order(solid_z: &[i16], text_z: &[i16], image_z: &[i16]) -> (order: Vec<
    UiSurfacePaintCommand,
>)
    requires
        solid_z@.len() + text_z@.len() + image_z@.len() <= usize::MAX,
    ensures
        is_stable_paint_sort(legacy_commands(solid_z@, text_z@, image_z@), order@),
{
    let ghost all = legacy_commands(solid_z@, text_z@, image_z@);
    let ns: usize = solid_z.len();
    let nt: usize = text_z.len();
    let ni: usize = image_z.len();
    let mut commands: Vec<UiSurfacePaintCommand> = Vec::new();
    let mut sequence: u32 = 0;
    let mut i: usize = 0;
    while i < ns
        invariant
            ns == solid_z@.len(),
            nt == text_z@.len(),
            ni == image_z@.len(),
            all == legacy_commands(solid_z@, text_z@, image_z@),
            0 <= i <= ns,
            commands@.len() == i,
            sequence == emission_sequence(i as int),
            forall|k: int| 0 <= k < i ==> #[trigger] commands@[k] == all[k],
        decreases ns - i,
    {
        commands.push(UiSurfacePaintCommand::Solid { index: i, z_index: solid_z[i], sequence });
        proof {
            lemma_next_sequence(i as int, sequence);
        }
        sequence = sequence.wrapping_add(1);
        i = i + 1;
    }
    let mut j: usize = 0;
    while j < nt
        invariant
            ns == solid_z@.len(),
            nt == text_z@.len(),
            ni == image_z@.len(),
            ns + nt + ni <= usize::MAX,
            all == legacy_commands(solid_z@, text_z@, image_z@),
            0 <= j <= nt,
            commands@.len() == ns + j,
            sequence == emission_sequence(ns + j),
            forall|k: int| 0 <= k < ns + j ==> #[trigger] commands@[k] == all[k],
        decreases nt - j,
    {
        commands.push(UiSurfacePaintCommand::Text { index: j, z_index: text_z[j], sequence });
        proof {
            lemma_next_sequence(ns + j, sequence);
        }
        sequence = sequence.wrapping_add(1);
        j = j + 1;
    }
    let mut m: usize = 0;
    while m < ni
        invariant
            ns == solid_z@.len(),
            nt == text_z@.len(),
            ni == image_z@.len(),
            ns + nt + ni <= usize::MAX,
            all == legacy_commands(solid_z@, text_z@, image_z@),
            0 <= m <= ni,
            commands@.len() == ns + nt + m,
            sequence == emission_sequence(ns + nt + m),
            forall|k: int| 0 <= k < ns + nt + m ==> #[trigger] commands@[k] == all[k],
        decreases ni - m,
    {
        commands.push(UiSurfacePaintCommand::Image { index: m, z_index: image_z[m], sequence });
        proof {
            lemma_next_sequence(ns + nt + m, sequence);
        }
        sequence = sequence.wrapping_add(1);
        m = m + 1;
    }
    assert(commands@ == all);
    sort_paint_order(&mut commands);
    commands
}

/// Law: the paint key of every command is its own `z_index` and `sequence`,
/// whatever its kind: solids, texts and images are layered alike.
pub proof fn law_paint_key_is_the_commands_own(c: UiSurfacePaintCommand)
    ensures
        c matches UiSurfacePaintCommand::Solid { z_index, sequence, .. } ==> c.z_index_spec() == z_index
            && c.sequence_spec() == sequence,
        c matches UiSurfacePaintCommand::Text { z_index, sequence, .. } ==> c.z_index_spec() == z_index
            && c.sequence_spec() == sequence,
        c matches UiSurfacePaintCommand::Image { z_index, sequence, .. } ==> c.z_index_spec() == z_index
            && c.sequence_spec() == sequence,
{
}

/// In paint order every primitive of a lower layer is painted before every
/// primitive of a higher layer, so an elevated overlay covers the base.
pub proof fn law_lower_layers_paint_first(
    src: Seq<UiSurfacePaintCommand>,
    dst: Seq<UiSurfacePaintCommand>,
    k: int,
    l: int,
)
    requires
        is_stable_paint_sort(src, dst),
        0 <= k < dst.len(),
        0 <= l < dst.len(),
        dst[k].z_index_spec() < dst[l].z_index_spec(),
    ensures
        k < l,
{
    if l < k {
        assert(paints_before(dst[l], dst[k]));
    }
}

} // verus!
