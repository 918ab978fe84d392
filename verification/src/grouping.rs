//! Grouping of registers into ranges that are read in one Modbus request each.
use vstd::prelude::*;

verus! {

/// A range of consecutive registers, read in one request.
#[derive(Clone, Copy, Debug, PartialEq, Eq, Structural)]
pub struct RegisterGroup {
    pub start_address: u16,
    pub length: u16,
}

/// A range of registers: `length` registers from `start`.
pub struct Span {
    pub start: int,
    pub length: int,
}

/// One past the last register of a span.
pub open spec fn span_end(g: Span) -> int {
    g.start + g.length
}

/// Whether register `reg` joins the open group `g`: it lies at its end or at
/// most ten registers past it.
pub open spec fn joins(g: Span, reg: int) -> bool {
    span_end(g) <= reg <= span_end(g) + 10
}

/// Takes the next register into the grouping state: the closed groups and
/// the open group. A register that joins the open group extends it up to
/// and including itself; any other register closes the open group and opens
/// a new one of its own.
pub open spec fn group_step(state: (Seq<Span>, Option<Span>), reg: int) -> (Seq<Span>, Option<Span>) {
    match state.1 {
        None => (state.0, Some(Span { start: reg, length: 1 })),
        Some(g) => if joins(g, reg) {
            (state.0, Some(Span { start: g.start, length: reg - g.start + 1 }))
        } else {
            (state.0.push(g), Some(Span { start: reg, length: 1 }))
        },
    }
}

/// The grouping state after taking all of `regs`, in order.
pub open spec fn group_state(regs: Seq<u16>) -> (Seq<Span>, Option<Span>)
    decreases regs.len(),
{
    if regs.len() == 0 {
        (seq![], None)
    } else {
        group_step(group_state(regs.drop_last()), regs.last() as int)
    }
}

/// The groups of `regs`: the closed groups, then the open one.
pub open spec fn spec_group_registers(regs: Seq<u16>) -> Seq<Span> {
    let state = group_state(regs);
    match state.1 {
        None => state.0,
        Some(g) => state.0.push(g),
    }
}

/// Whether taking `reg` into the open group `g` stays within 16-bit
/// arithmetic: the end of the group, that end plus ten when `reg` is not
/// before it, and the new length when `reg` joins.
pub open spec fn step_fits(g: Span, reg: int) -> bool {
    &&& span_end(g) <= u16::MAX
    &&& reg >= span_end(g) ==> span_end(g) + 10 <= u16::MAX
    &&& joins(g, reg) ==> reg - g.start + 1 <= u16::MAX
}

/// Whether grouping `regs` stays within 16-bit arithmetic at every step.
pub open spec fn groups_fit(regs: Seq<u16>) -> bool {
    forall|i: int|
        1 <= i < regs.len() ==> (#[trigger] group_state(regs.take(i)).1 matches Some(g)
            && step_fits(g, regs[i] as int))
}

/// The span of a register group.
pub open spec fn group_span(g: RegisterGroup) -> Span {
    Span { start: g.start_address as int, length: g.length as int }
}

/// The spans of a sequence of register groups.
pub open spec fn group_spans(gs: Seq<RegisterGroup>) -> Seq<Span> {
    gs.map_values(|g: RegisterGroup| group_span(g))
}

/// Groups sorted registers into ranges whose gaps are at most ten registers
/// wide. A register before the end of the current range (such as a repeated
/// one) starts a new range.
pub fn group_registers(regs: &[u16]) -> (groups: Vec<RegisterGroup>)
    requires
        groups_fit(regs@),
    ensures
        group_spans(groups@) == spec_group_registers(regs@),
{
    let mut groups: Vec<RegisterGroup> = Vec::new();
    let mut current_group: Option<RegisterGroup> = None;

    let mut i: usize = 0;
    while i < regs.len()
        invariant
            i <= regs@.len(),
            groups_fit(regs@),
            group_spans(groups@) == group_state(regs@.take(i as int)).0,
            match current_group {
                None => group_state(regs@.take(i as int)).1 is None,
                Some(g) => group_state(regs@.take(i as int)).1 == Some(group_span(g)),
            },
            i == 0 <==> current_group is None,
        decreases regs@.len() - i,
    {
        let reg = regs[i];
        assert(regs@.take(i + 1).drop_last() =~= regs@.take(i as int));
        assert(regs@.take(i + 1).last() == reg);
        match current_group {
            Some(group) => {
                assert(group_state(regs@.take(i as int)).1 matches Some(g) && step_fits(
                    g,
                    regs@[i as int] as int,
                ));
                let group_end = group.start_address + group.length;
                if reg >= group_end && reg <= group_end + 10 {
                    let mut length = group.length;
                    if reg > group_end {
                        length += reg - group_end;
                    }
                    length += 1;
                    current_group = Some(RegisterGroup { start_address: group.start_address, length });
                } else {
                    let ghost old_groups = groups@;
                    groups.push(group);
                    assert(group_spans(groups@) =~= group_spans(old_groups).push(group_span(group)));
                    current_group = Some(RegisterGroup { start_address: reg, length: 1 });
                }
            },
            None => {
                current_group = Some(RegisterGroup { start_address: reg, length: 1 });
            },
        }
        i += 1;
    }
    assert(regs@.take(i as int) =~= regs@);

    if let Some(group) = current_group {
        let ghost old_groups = groups@;
        groups.push(group);
        assert(group_spans(groups@) =~= group_spans(old_groups).push(group_span(group)));
    }

    groups
}

/// Whether grouping `regs` with [`group_registers`] stays within 16-bit
/// arithmetic (see [`groups_fit`]).
pub fn registers_group_fits(regs: &[u16]) -> (b: bool)
    ensures
        b == groups_fit(regs@),
{
    if regs.len() == 0 {
        return true;
    }
    let mut start: u32 = regs[0] as u32;
    let mut length: u32 = 1;
    let mut i: usize = 1;
    assert(regs@.take(1).drop_last() =~= Seq::<u16>::empty());
    assert(regs@.take(1).last() == regs@[0]);
    assert(group_state(Seq::<u16>::empty()).1 is None);
    assert(group_state(regs@.take(1)).1 == Some(Span { start: start as int, length: 1 }));
    while i < regs.len()
        invariant
            1 <= i <= regs@.len(),
            group_state(regs@.take(i as int)).1 == Some(
                Span { start: start as int, length: length as int },
            ),
            start + length <= 65536,
            forall|k: int|
                1 <= k < i ==> (#[trigger] group_state(regs@.take(k)).1 matches Some(g)
                    && step_fits(g, regs@[k] as int)),
        decreases regs@.len() - i,
    {
        let reg = regs[i] as u32;
        let end = start + length;
        let ghost g = Span { start: start as int, length: length as int };
        let fits = end <= 65535 && (reg < end || end + 10 <= 65535) && (!(end <= reg && reg <= end
            + 10) || reg - start + 1 <= 65535);
        if !fits {
            assert(!step_fits(g, regs@[i as int] as int));
            return false;
        }
        assert(regs@.take(i + 1).drop_last() =~= regs@.take(i as int));
        if end <= reg && reg <= end + 10 {
            length = reg - start + 1;
        } else {
            start = reg;
            length = 1;
        }
        i += 1;
    }
    assert(regs@.take(i as int) =~= regs@);
    true
}

/// Whether span `g` holds register `x`.
pub open spec fn covers(g: Span, x: int) -> bool {
    g.start <= x < span_end(g)
}

/// Whether `x` is one of `regs`.
pub open spec fn is_register(regs: Seq<u16>, x: int) -> bool {
    exists|k: int| 0 <= k < regs.len() && regs[k] as int == x
}

/// Whether every register is greater than the one before it.
pub open spec fn strictly_increasing(regs: Seq<u16>) -> bool {
    forall|i: int, j: int| 0 <= i < j < regs.len() ==> regs[i] < regs[j]
}

/// The open group after a non-empty prefix ends at the last register taken.
proof fn lemma_open_group(regs: Seq<u16>)
    ensures
        group_state(regs).1 is Some <==> regs.len() > 0,
        group_state(regs).1 matches Some(g) ==> g.length >= 1 && span_end(g) - 1
            == regs.last() as int,
    decreases regs.len(),
{
    if regs.len() > 0 {
        lemma_open_group(regs.drop_last());
    }
}

/// How the groups change when a register is taken.
proof fn lemma_groups_step(regs: Seq<u16>)
    requires
        regs.len() > 0,
    ensures
        ({
            let prev = regs.drop_last();
            let r = regs.last() as int;
            let old_state = group_state(prev);
            let old_spans = spec_group_registers(prev);
            let spans = spec_group_registers(regs);
            match old_state.1 {
                None => spans == seq![Span { start: r, length: 1 }],
                Some(g) => if joins(g, r) {
                    &&& spans.len() == old_spans.len()
                    &&& forall|j: int|
                        0 <= j < spans.len() - 1 ==> #[trigger] spans[j] == old_spans[j]
                    &&& spans.last() == Span { start: g.start, length: r - g.start + 1 }
                    &&& old_spans.last() == g
                } else {
                    &&& spans.len() == old_spans.len() + 1
                    &&& forall|j: int| 0 <= j < old_spans.len() ==> #[trigger] spans[j] == old_spans[j]
                    &&& spans.last() == Span { start: r, length: 1 }
                    &&& old_spans.last() == g
                },
            }
        }),
{
    let prev = regs.drop_last();
    let old_state = group_state(prev);
    let r = regs.last() as int;
    match old_state.1 {
        None => {
            lemma_open_group(prev);
        },
        Some(g) => {
            if joins(g, r) {
                assert(spec_group_registers(regs) == old_state.0.push(
                    Span { start: g.start, length: r - g.start + 1 },
                ));
            } else {
                assert(spec_group_registers(regs) == old_state.0.push(g).push(
                    Span { start: r, length: 1 },
                ));
            }
        },
    }
}

proof fn lemma_prev_register(regs: Seq<u16>, x: int)
    requires
        regs.len() > 0,
        is_register(regs.drop_last(), x),
    ensures
        is_register(regs, x),
{
    let k = choose|k: int| 0 <= k < regs.drop_last().len() && regs.drop_last()[k] as int == x;
    assert(regs[k] == regs.drop_last()[k]);
}

proof fn lemma_cover(regs: Seq<u16>, i: int)
    requires
        0 <= i < regs.len(),
    ensures
        exists|j: int|
            0 <= j < spec_group_registers(regs).len() && #[trigger] covers(
                spec_group_registers(regs)[j],
                regs[i] as int,
            ),
    decreases regs.len(),
{
    let prev = regs.drop_last();
    let spans = spec_group_registers(regs);
    let old_spans = spec_group_registers(prev);
    lemma_groups_step(regs);
    lemma_open_group(prev);
    if i == regs.len() - 1 {
        assert(covers(spans[spans.len() - 1], regs[i] as int));
    } else {
        lemma_cover(prev, i);
        assert(regs[i] == prev[i]);
        let j = choose|j: int| 0 <= j < old_spans.len() && #[trigger] covers(old_spans[j], prev[i] as int);
        if j < spans.len() - 1 {
            assert(spans[j] == old_spans[j]);
            assert(covers(spans[j], regs[i] as int));
        } else {
            assert(covers(spans[j], regs[i] as int));
        }
    }
}

proof fn lemma_bounds(regs: Seq<u16>, j: int)
    requires
        0 <= j < spec_group_registers(regs).len(),
    ensures
        is_register(regs, spec_group_registers(regs)[j].start),
        is_register(regs, span_end(spec_group_registers(regs)[j]) - 1),
    decreases regs.len(),
{
    let prev = regs.drop_last();
    let spans = spec_group_registers(regs);
    let old_spans = spec_group_registers(prev);
    lemma_groups_step(regs);
    lemma_open_group(prev);
    lemma_open_group(regs);
    assert(is_register(regs, regs.last() as int)) by {
        assert(regs[regs.len() - 1] == regs.last());
    }
    if j == spans.len() - 1 {
        if let Some(g) = group_state(prev).1 {
            if joins(g, regs.last() as int) {
                lemma_bounds(prev, j);
                lemma_prev_register(regs, old_spans[j].start);
            }
        }
    } else {
        lemma_bounds(prev, j);
        assert(spans[j] == old_spans[j]);
        lemma_prev_register(regs, old_spans[j].start);
        lemma_prev_register(regs, span_end(old_spans[j]) - 1);
    }
}

proof fn lemma_separated(regs: Seq<u16>, j: int)
    requires
        strictly_increasing(regs),
        0 <= j < spec_group_registers(regs).len() - 1,
    ensures
        spec_group_registers(regs)[j + 1].start > span_end(spec_group_registers(regs)[j]) + 10,
    decreases regs.len(),
{
    let prev = regs.drop_last();
    let spans = spec_group_registers(regs);
    let old_spans = spec_group_registers(prev);
    assert(strictly_increasing(prev));
    lemma_groups_step(regs);
    lemma_open_group(prev);
    if let Some(g) = group_state(prev).1 {
        assert(prev.last() < regs.last()) by {
            assert(prev.last() == regs[regs.len() - 2]);
        }
        if joins(g, regs.last() as int) {
            lemma_separated(prev, j);
            assert(spans[j] == old_spans[j]);
        } else if j < spans.len() - 2 {
            lemma_separated(prev, j);
            assert(spans[j] == old_spans[j]);
            assert(spans[j + 1] == old_spans[j + 1]);
        } else {
            assert(spans[j] == old_spans[j]);
        }
    }
}

/// Every register lies in one of its groups.
pub proof fn lemma_groups_cover_registers(regs: Seq<u16>, i: int)
    requires
        0 <= i < regs.len(),
    ensures
        exists|j: int|
            0 <= j < spec_group_registers(regs).len() && #[trigger] covers(
                spec_group_registers(regs)[j],
                regs[i] as int,
            ),
{
    lemma_cover(regs, i);
}

/// Every group starts at a register and ends at a register: no group reads
/// past the registers asked for.
pub proof fn lemma_group_ends_are_registers(regs: Seq<u16>, j: int)
    requires
        0 <= j < spec_group_registers(regs).len(),
    ensures
        is_register(regs, spec_group_registers(regs)[j].start),
        is_register(regs, span_end(spec_group_registers(regs)[j]) - 1),
{
    lemma_bounds(regs, j);
}

/// For strictly increasing registers, a group starts more than ten
/// registers after the end of the one before it.
pub proof fn lemma_groups_separated(regs: Seq<u16>, j: int)
    requires
        strictly_increasing(regs),
        0 <= j < spec_group_registers(regs).len() - 1,
    ensures
        spec_group_registers(regs)[j + 1].start > span_end(spec_group_registers(regs)[j]) + 10,
{
    lemma_separated(regs, j);
}

} // verus!
