//! What the state sections of a snapshot keep of what was recorded.
use crate::sections;
use crate::sections::{MetaSection, Payload, PlaceView, RecordedView, Section, SectionId};
use crate::text;
use crate::text_laws;
use vstd::prelude::*;

verus! {

/// The `p`-th section has this name.
pub open spec fn named<G, L, T, D>(
    list: Seq<Section<'_, G, L, T, D>>,
    id: SectionId,
    index: u32,
    p: int,
) -> bool {
    0 <= p < list.len() && list[p].id == id && list[p].index == index
}

/// What stands in the section of this name, if there is one.
pub open spec fn lookup<'a, G, L, T, D>(
    list: Seq<Section<'a, G, L, T, D>>,
    id: SectionId,
    index: u32,
) -> Option<Payload<'a, G, L, T, D>> {
    if exists|p: int| named(list, id, index, p) {
        Some(list[choose|p: int| named(list, id, index, p)].payload)
    } else {
        None
    }
}

/// The sections of a kind can be counted with the index that they have.
pub open spec fn countable<G, L, T, D>(recorded: RecordedView<G, L, T, D>) -> bool {
    recorded.vcpu_states.len() <= u32::MAX + 1 && recorded.virtio.len() <= u32::MAX + 1
}

/// How many sections stand before those of the virtio devices.
spec fn fixed_len<G, L, T, D>(recorded: RecordedView<G, L, T, D>) -> int {
    1 + recorded.vcpu_states.len() + (if recorded.gic is Some {
        1int
    } else {
        0
    }) + (if recorded.hvf_gic is Some {
        1int
    } else {
        0
    }) + (if recorded.vcpu_list is Some {
        1int
    } else {
        0
    })
}

/// No two sections share a name.
pub proof fn names_are_distinct<G, L, T, D>(
    meta: &MetaSection, recorded: RecordedView<G, L, T, D>,
    id: SectionId,
    index: u32,
    p: int,
    q: int,
)
    requires
        countable(recorded),
        named(sections::section_list(meta, recorded), id, index, p),
        named(sections::section_list(meta, recorded), id, index, q),
    ensures
        p == q,
{
    let n = recorded.vcpu_states.len() as int;
    let f = fixed_len(recorded);
    let list = sections::section_list(meta, recorded);
    assert(list.len() == f + recorded.virtio.len());
    assert forall|k: int| 0 <= k < list.len() implies match (#[trigger] list[k]).id {
        SectionId::Meta => k == 0,
        SectionId::Vcpu => 1 <= k < 1 + n && list[k].index == k - 1,
        SectionId::GicDist => k == 1 + n && recorded.gic is Some,
        SectionId::HvfGic => k == (if recorded.vcpu_list is Some {
            f - 2
        } else {
            f - 1
        }),
        SectionId::GicVcpu => k == f - 1,
        SectionId::VirtioMmio => f <= k && list[k].index == k - f,
    } by {}
}

proof fn lemma_lookup<G, L, T, D>(
    meta: &MetaSection, recorded: RecordedView<G, L, T, D>,
    id: SectionId,
    index: u32,
    p: int,
)
    requires
        countable(recorded),
        named(sections::section_list(meta, recorded), id, index, p),
    ensures
        lookup(sections::section_list(meta, recorded), id, index) == Some(
            sections::section_list(meta, recorded)[p].payload,
        ),
{
    let list = sections::section_list(meta, recorded);
    let q = choose|q: int| named(list, id, index, q);
    names_are_distinct(meta, recorded, id, index, p, q);
}

/// A reader that looks a section up by its name finds what was recorded: the
/// summary, the state of each vCPU and each virtio device at its position, the
/// interrupt state as far as there is one; and no other section.
pub proof fn sections_read_back<G, L, T, D>(meta: &MetaSection, recorded: RecordedView<G, L, T, D>)
    requires
        countable(recorded),
    ensures
        ({
            let list = sections::section_list(meta, recorded);
            &&& lookup(list, SectionId::Meta, 0) == Some(Payload::<G, L, T, D>::Meta(meta))
            &&& forall|i: u32| #[trigger]
                lookup(list, SectionId::Vcpu, i) == if i < recorded.vcpu_states.len() {
                    Some(Payload::<G, L, T, D>::Raw(&recorded.vcpu_states[i as int]))
                } else {
                    None
                }
            &&& lookup(list, SectionId::GicDist, 0) == match recorded.gic {
                Some(gic) => Some(Payload::<G, L, T, D>::Distributor(&gic)),
                None => None,
            }
            &&& lookup(list, SectionId::HvfGic, 0) == match recorded.hvf_gic {
                Some(state) => Some(Payload::<G, L, T, D>::Raw(&state)),
                None => None,
            }
            &&& lookup(list, SectionId::GicVcpu, 0) == match recorded.vcpu_list {
                Some(list) => Some(Payload::<G, L, T, D>::Pending(&list)),
                None => None,
            }
            &&& forall|i: u32| #[trigger]
                lookup(list, SectionId::VirtioMmio, i) == if i < recorded.virtio.len() {
                    Some(Payload::<G, L, T, D>::Virtio(&recorded.virtio[i as int]))
                } else {
                    None
                }
        }),
{
    let n = recorded.vcpu_states.len() as int;
    let f = fixed_len(recorded);
    let h = if recorded.vcpu_list is Some {
        f - 2
    } else {
        f - 1
    };
    let list = sections::section_list(meta, recorded);
    assert(list.len() == f + recorded.virtio.len());
    assert forall|k: int| 0 <= k < list.len() implies match (#[trigger] list[k]).id {
        SectionId::Meta => k == 0,
        SectionId::Vcpu => 1 <= k < 1 + n && list[k].index == k - 1,
        SectionId::GicDist => k == 1 + n && recorded.gic is Some,
        SectionId::HvfGic => k == h && recorded.hvf_gic is Some,
        SectionId::GicVcpu => k == f - 1 && recorded.vcpu_list is Some,
        SectionId::VirtioMmio => f <= k && list[k].index == k - f,
    } by {}
    lemma_lookup(meta, recorded, SectionId::Meta, 0, 0);
    assert forall|i: u32| #[trigger]
        lookup(list, SectionId::Vcpu, i) == if i < n {
            Some(Payload::<G, L, T, D>::Raw(&recorded.vcpu_states[i as int]))
        } else {
            None
        } by {
        if i < n {
            lemma_lookup(meta, recorded, SectionId::Vcpu, i, 1 + i);
        }
    }
    if recorded.gic is Some {
        lemma_lookup(meta, recorded, SectionId::GicDist, 0, 1 + n);
    }
    if recorded.hvf_gic is Some {
        lemma_lookup(meta, recorded, SectionId::HvfGic, 0, h);
    }
    if recorded.vcpu_list is Some {
        lemma_lookup(meta, recorded, SectionId::GicVcpu, 0, f - 1);
    }
    assert forall|i: u32| #[trigger]
        lookup(list, SectionId::VirtioMmio, i) == if i < recorded.virtio.len() {
            Some(Payload::<G, L, T, D>::Virtio(&recorded.virtio[i as int]))
        } else {
            None
        } by {
        if i < recorded.virtio.len() {
            lemma_lookup(meta, recorded, SectionId::VirtioMmio, i, f + i);
        }
    }
}

/// There is one virtio section per base address in the summary, with that base
/// address, and its index is the position in the list.
pub proof fn summary_lists_the_devices<G, L, T, D>(
    meta: &MetaSection,
    recorded: RecordedView<G, L, T, D>,
    i: u32,
)
    requires
        countable(recorded),
        meta.virtio_bases@ == sections::bases_of(recorded.virtio),
    ensures
        match lookup(sections::section_list(meta, recorded), SectionId::VirtioMmio, i) {
            Some(payload) => {
                &&& i < meta.virtio_bases@.len()
                &&& payload matches Payload::Virtio(section)
                &&& section.mmio_base == meta.virtio_bases@[i as int]
            },
            None => i >= meta.virtio_bases@.len(),
        },
{
    sections_read_back(meta, recorded);
}

/// A number in base ten is made of digits, and tells which number it is.
proof fn lemma_decimal(n: nat)
    ensures
        text::decimal(n).len() > 0,
        forall|k: int| 0 <= k < text::decimal(n).len() ==> #[trigger] text::decimal(n)[k] != '.',
    decreases n,
{
    if n >= 10 {
        lemma_decimal(n / 10);
        let before = text::decimal(n / 10);
        assert forall|k: int| 0 <= k < text::decimal(n).len() implies #[trigger] text::decimal(n)[k]
            != '.' by {
            if k < before.len() {
                assert(text::decimal(n)[k] == before[k]);
            }
        }
    }
}

proof fn lemma_digit(a: nat, b: nat)
    requires
        a < 10,
        b < 10,
        text::digit(a) == text::digit(b),
    ensures
        a == b,
{
}

proof fn lemma_decimal_tells(a: nat, b: nat)
    requires
        text::decimal(a) == text::decimal(b),
    ensures
        a == b,
    decreases a,
{
    let x = text::decimal(a);
    let y = text::decimal(b);
    lemma_decimal(a / 10);
    lemma_decimal(b / 10);
    assert(x.last() == text::digit(a % 10));
    assert(y.last() == text::digit(b % 10));
    lemma_digit(a % 10, b % 10);
    if a >= 10 && b >= 10 {
        assert(x.drop_last() =~= text::decimal(a / 10));
        assert(y.drop_last() =~= text::decimal(b / 10));
        lemma_decimal_tells(a / 10, b / 10);
    }
}

/// What stands before a mark and digits, and which digits, if the digits are no longer than
/// those of another such text.
proof fn lemma_marked(a: Seq<char>, b: Seq<char>, x: Seq<char>, y: Seq<char>)
    requires
        "."@ + a + ".tmp."@ + x == "."@ + b + ".tmp."@ + y,
        x.len() <= y.len(),
        forall|k: int| 0 <= k < y.len() ==> #[trigger] y[k] != '.',
    ensures
        a == b,
        x == y,
{
    reveal_strlit(".");
    reveal_strlit(".tmp.");
    let s = "."@ + a + ".tmp."@ + x;
    let t = "."@ + b + ".tmp."@ + y;
    assert(s.len() == t.len());
    if x.len() < y.len() {
        let p = s.len() - x.len() - 1;
        assert(s[p] == '.');
        assert(t[p] == y[p - (t.len() - y.len())]);
    }
    assert(s.subrange(1, 1int + a.len()) =~= a);
    assert(t.subrange(1, 1int + b.len()) =~= b);
    assert(s.skip(s.len() - x.len()) =~= x);
    assert(t.skip(t.len() - y.len()) =~= y);
}

/// The stage tells which directory it is for, and which process stages there: two
/// directories, or two processes, never share a stage.
pub proof fn stages_differ(a: PlaceView, b: PlaceView, p: u32, q: u32)
    requires
        sections::stage_of(a.parent, Some(a.name), p) == sections::stage_of(
            b.parent,
            Some(b.name),
            q,
        ),
    ensures
        a == b,
        p == q,
{
    let x = text::decimal(p as nat);
    let y = text::decimal(q as nat);
    lemma_decimal(p as nat);
    lemma_decimal(q as nat);
    assert("."@ + a.name + ".tmp."@ + x == "."@ + b.name + ".tmp."@ + y);
    if x.len() <= y.len() {
        lemma_marked(a.name, b.name, x, y);
    } else {
        lemma_marked(b.name, a.name, y, x);
    }
    lemma_decimal_tells(p as nat, q as nat);
}

/// The stage stands in the directory that holds the directory to publish to, beside it and
/// not in its place.
pub proof fn stage_stands_beside_target(target: PlaceView, process_id: u32)
    ensures
        sections::stage_of(target.parent, Some(target.name), process_id).parent == target.parent,
        sections::stage_of(target.parent, Some(target.name), process_id).name != target.name,
{
    reveal_strlit(".");
    reveal_strlit(".tmp.");
    assert(sections::stage_name(Some(target.name), process_id).len() > target.name.len());
}

/// The name of a staging directory is hidden, and holds the name of the directory to publish
/// to, a mark, and at its end the number of the process. A directory without a name is staged
/// like one named `snapshot`.
pub proof fn stage_name_tells_its_parts(name: Seq<char>, process_id: u32)
    ensures
        ({
            let stage = sections::stage_name(Some(name), process_id);
            let marked = 1 + name.len() as int;
            &&& stage.len() > marked + 5
            &&& stage[0] == '.'
            &&& stage.subrange(1, marked) == name
            &&& stage.subrange(marked, marked + 5) == seq!['.', 't', 'm', 'p', '.']
            &&& text_laws::is_number(stage.skip(marked + 5), 10)
            &&& text_laws::value(stage.skip(marked + 5), 10) == process_id
        }),
        sections::stage_name(None, process_id) == sections::stage_name(
            Some(seq!['s', 'n', 'a', 'p', 's', 'h', 'o', 't']),
            process_id,
        ),
{
    reveal_strlit(".");
    reveal_strlit(".tmp.");
    reveal_strlit("snapshot");
    text_laws::decimal_reads_back(process_id as nat);
    let stage = sections::stage_name(Some(name), process_id);
    let marked = 1 + name.len() as int;
    let digits = text::decimal(process_id as nat);
    assert(stage.skip(marked + 5) =~= digits);
    assert(stage.subrange(1, marked) =~= name);
    assert(stage.subrange(marked, marked + 5) =~= seq!['.', 't', 'm', 'p', '.']);
    assert("snapshot"@ =~= seq!['s', 'n', 'a', 'p', 's', 'h', 'o', 't']);
}

/// The top-level section comes first, then the registers in the order of the vCPUs, then the
/// distributor, what the interrupt controller keeps itself and the pending interrupts, as far
/// as they were recorded, and at the end the devices in order.
pub proof fn sections_stand_in_order<G, L, T, D>(
    meta: &MetaSection,
    recorded: RecordedView<G, L, T, D>,
)
    ensures
        ({
            let list = sections::section_list(meta, recorded);
            let n = recorded.vcpu_states.len() as int;
            let h = 1 + n + (if recorded.gic is Some {
                1int
            } else {
                0
            });
            let p = h + (if recorded.hvf_gic is Some {
                1int
            } else {
                0
            });
            let d = p + (if recorded.vcpu_list is Some {
                1int
            } else {
                0
            });
            &&& list.len() == d + recorded.virtio.len()
            &&& list[0].id is Meta && list[0].payload == Payload::<G, L, T, D>::Meta(meta)
            &&& forall|i: int|
                1 <= i < 1 + n ==> (#[trigger] list[i]).id is Vcpu && list[i].payload == Payload::<
                    G,
                    L,
                    T,
                    D,
                >::Raw(&recorded.vcpu_states[i - 1])
            &&& recorded.gic is Some ==> list[1 + n].id is GicDist
            &&& recorded.hvf_gic is Some ==> list[h].id is HvfGic
            &&& recorded.vcpu_list is Some ==> list[p].id is GicVcpu
            &&& forall|i: int|
                d <= i < list.len() ==> (#[trigger] list[i]).id is VirtioMmio && list[i].payload
                    == Payload::<G, L, T, D>::Virtio(&recorded.virtio[i - d])
        }),
{
}

} // verus!
