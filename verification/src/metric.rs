//! Metrics exported from the registers of an inverter, as described by a
//! register map.
use vstd::prelude::*;

verus! {

/// The Prometheus type of a metric.
#[derive(Clone, Copy, Debug, PartialEq, Eq, Structural)]
pub enum MetricType {
    Gauge,
    Counter,
}

/// The name of a metric type in the Prometheus exposition format.
pub open spec fn metric_type_name(t: MetricType) -> Seq<char> {
    match t {
        MetricType::Gauge => "gauge"@,
        MetricType::Counter => "counter"@,
    }
}

impl MetricType {
    /// The name of the metric type in the Prometheus exposition format.
    pub fn to_string(&self) -> (s: String)
        ensures
            s@ == metric_type_name(*self),
    {
        match self {
            MetricType::Gauge => String::from_str("gauge"),
            MetricType::Counter => String::from_str("counter"),
        }
    }
}

/// A value stored in one register (`ModbusCell(address, None)`) or in two,
/// low word first (`ModbusCell(low, Some(high))`).
#[derive(Clone, Copy, Debug, PartialEq, Eq, Structural)]
pub struct ModbusCell(pub u16, pub Option<u16>);

impl ModbusCell {
    /// The one-register cell at the address written as the integer `v` in a
    /// register map; the address is `v` modulo 2^16.
    pub fn from_i64(v: i64) -> (c: ModbusCell)
        ensures
            c.0 as int == v % 65536,
            c.1 is None,
    {
        let m: i64 = v % 65536;
        let r: i64 = if m < 0 {
            m + 65536
        } else {
            m
        };
        ModbusCell(r as u16, None)
    }
}

/// The registers a cell is stored in, low word first.
pub open spec fn cell_registers(c: ModbusCell) -> Seq<u16> {
    match c.1 {
        None => seq![c.0],
        Some(high) => seq![c.0, high],
    }
}

/// The registers read by a metric.
#[derive(Debug)]
pub enum MetricContent {
    /// One value.
    Single(ModbusCell),
    /// One value per value of the label named `label`.
    Many { label: String, values: Vec<(String, ModbusCell)> },
}

/// A metric of the register map.
#[derive(Debug)]
pub struct Metric {
    pub name: String,
    pub desc: String,
    pub metric_type: MetricType,
    pub signed: bool,
    pub regs: MetricContent,
}

/// The cells of a metric, in the order of its samples.
pub open spec fn metric_cells(m: Metric) -> Seq<ModbusCell> {
    match m.regs {
        MetricContent::Single(c) => seq![c],
        MetricContent::Many { values, .. } => values@.map_values(|p: (String, ModbusCell)| p.1),
    }
}

/// The registers of a sequence of cells, in order.
pub open spec fn cells_registers(cells: Seq<ModbusCell>) -> Seq<u16>
    decreases cells.len(),
{
    if cells.len() == 0 {
        seq![]
    } else {
        cells_registers(cells.drop_last()) + cell_registers(cells.last())
    }
}

/// The registers read by a sequence of metrics, in order.
pub open spec fn metrics_registers(metrics: Seq<Metric>) -> Seq<u16>
    decreases metrics.len(),
{
    if metrics.len() == 0 {
        seq![]
    } else {
        metrics_registers(metrics.drop_last()) + cells_registers(metric_cells(metrics.last()))
    }
}

/// Appends the registers of `c` to `regs`.
fn push_cell_registers(regs: &mut Vec<u16>, c: ModbusCell)
    ensures
        final(regs)@ == old(regs)@ + cell_registers(c),
{
    let ModbusCell(low, high) = c;
    regs.push(low);
    if let Some(high) = high {
        regs.push(high);
    }
}

/// Appends the registers of metric `m` to `regs`.
fn push_metric_registers(regs: &mut Vec<u16>, m: &Metric)
    ensures
        final(regs)@ == old(regs)@ + cells_registers(metric_cells(*m)),
{
    match &m.regs {
        MetricContent::Single(c) => {
            push_cell_registers(regs, *c);
            assert(cells_registers(seq![*c]) =~= cell_registers(*c)) by {
                assert(seq![*c].drop_last() =~= Seq::<ModbusCell>::empty());
                assert(seq![*c].last() == *c);
                assert(cells_registers(Seq::<ModbusCell>::empty()) =~= Seq::<u16>::empty());
                assert(cells_registers(seq![*c]) == cells_registers(seq![*c].drop_last())
                    + cell_registers(seq![*c].last()));
            }
        },
        MetricContent::Many { label: _, values } => {
            let ghost cells = values@.map_values(|p: (String, ModbusCell)| p.1);
            let ghost start = regs@;
            let mut i: usize = 0;
            while i < values.len()
                invariant
                    i <= values@.len(),
                    cells == values@.map_values(|p: (String, ModbusCell)| p.1),
                    regs@ == start + cells_registers(cells.take(i as int)),
                decreases values@.len() - i,
            {
                assert(cells.take(i + 1).drop_last() =~= cells.take(i as int));
                push_cell_registers(regs, values[i].1);
                assert(regs@ =~= start + cells_registers(cells.take(i + 1)));
                i += 1;
            }
            assert(cells.take(i as int) =~= cells);
        },
    }
}

/// The registers read by `metrics`, in order: for each metric, for each of
/// its cells, the low register then the high one, if any.
pub fn collect_registers(metrics: &Vec<Metric>) -> (regs: Vec<u16>)
    ensures
        regs@ == metrics_registers(metrics@),
{
    let mut regs: Vec<u16> = Vec::new();
    let mut i: usize = 0;
    while i < metrics.len()
        invariant
            i <= metrics@.len(),
            regs@ == metrics_registers(metrics@.take(i as int)),
        decreases metrics@.len() - i,
    {
        assert(metrics@.take(i + 1).drop_last() =~= metrics@.take(i as int));
        push_metric_registers(&mut regs, &metrics[i]);
        i += 1;
    }
    assert(metrics@.take(i as int) =~= metrics@);
    regs
}

/// Whether every register of `regs` is below `n`.
pub open spec fn all_below(regs: Seq<u16>, n: int) -> bool {
    forall|k: int| 0 <= k < regs.len() ==> #[trigger] regs[k] < n
}

proof fn lemma_all_below_concat(a: Seq<u16>, b: Seq<u16>, n: int)
    ensures
        all_below(a + b, n) == (all_below(a, n) && all_below(b, n)),
{
    if all_below(a + b, n) {
        assert forall|k: int| 0 <= k < a.len() implies #[trigger] a[k] < n by {
            assert((a + b)[k] == a[k]);
        }
        assert forall|k: int| 0 <= k < b.len() implies #[trigger] b[k] < n by {
            assert((a + b)[a.len() + k] == b[k]);
        }
    }
}

/// The registers of each cell are among the registers of its sequence.
pub proof fn lemma_cell_registers_below(cells: Seq<ModbusCell>, j: int, n: int)
    requires
        0 <= j < cells.len(),
        all_below(cells_registers(cells), n),
    ensures
        all_below(cell_registers(cells[j]), n),
    decreases cells.len(),
{
    lemma_all_below_concat(cells_registers(cells.drop_last()), cell_registers(cells.last()), n);
    if j < cells.len() - 1 {
        lemma_cell_registers_below(cells.drop_last(), j, n);
    }
}

/// The registers of each metric are among the registers of its sequence.
pub proof fn lemma_metric_registers_below(metrics: Seq<Metric>, i: int, n: int)
    requires
        0 <= i < metrics.len(),
        all_below(metrics_registers(metrics), n),
    ensures
        all_below(cells_registers(metric_cells(metrics[i])), n),
    decreases metrics.len(),
{
    lemma_all_below_concat(
        metrics_registers(metrics.drop_last()),
        cells_registers(metric_cells(metrics.last())),
        n,
    );
    if i < metrics.len() - 1 {
        lemma_metric_registers_below(metrics.drop_last(), i, n);
    }
}

/// Whether the label values of `m` are pairwise distinct, as the keys of the
/// label table of a register map are.
pub open spec fn labels_distinct(m: Metric) -> bool {
    match m.regs {
        MetricContent::Single(_) => true,
        MetricContent::Many { values, .. } => forall|i: int, j: int|
            0 <= i < j < values@.len() ==> #[trigger] values@[i].0@ != #[trigger] values@[j].0@,
    }
}

/// Whether every metric of `metrics` has pairwise distinct label values.
pub open spec fn all_labels_distinct(metrics: Seq<Metric>) -> bool {
    forall|i: int| 0 <= i < metrics.len() ==> #[trigger] labels_distinct(metrics[i])
}

/// Whether the label values of `m` are pairwise distinct.
pub fn has_distinct_labels(m: &Metric) -> (b: bool)
    ensures
        b == labels_distinct(*m),
{
    match &m.regs {
        MetricContent::Single(_) => true,
        MetricContent::Many { label, values } => {
            assert(m.regs == MetricContent::Many { label: *label, values: *values });
            let n = values.len();
            let mut j: usize = 0;
            while j < n
                invariant
                    n == values@.len(),
                    m.regs == (MetricContent::Many { label: *label, values: *values }),
                    j <= n,
                    forall|a: int, b: int|
                        0 <= a < b < j ==> #[trigger] values@[a].0@ != #[trigger] values@[b].0@,
                decreases n - j,
            {
                let mut i: usize = 0;
                while i < j
                    invariant
                        n == values@.len(),
                        m.regs == (MetricContent::Many { label: *label, values: *values }),
                        i <= j < n,
                        forall|a: int| 0 <= a < i ==> #[trigger] values@[a].0@ != values@[j as int].0@,
                    decreases j - i,
                {
                    if values[i].0 == values[j].0 {
                        assert(values@[i as int].0@ == values@[j as int].0@);
                        assert(m.regs is Many);
                        assert(m.regs->values == *values);
                        assert(!labels_distinct(*m));
                        return false;
                    }
                    i += 1;
                }
                j += 1;
            }
            true
        },
    }
}

/// Whether every metric of `metrics` has pairwise distinct label values.
pub fn have_distinct_labels(metrics: &Vec<Metric>) -> (b: bool)
    ensures
        b == all_labels_distinct(metrics@),
{
    let mut i: usize = 0;
    while i < metrics.len()
        invariant
            i <= metrics@.len(),
            forall|k: int| 0 <= k < i ==> #[trigger] labels_distinct(metrics@[k]),
        decreases metrics@.len() - i,
    {
        if !has_distinct_labels(&metrics[i]) {
            return false;
        }
        i += 1;
    }
    true
}

} // verus!
