//! The register table behind the exported metrics.
use vstd::prelude::*;
use vstd::relations::sorted_by;

use crate::grouping::{
    covers, group_registers, group_spans, groups_fit, lemma_group_ends_are_registers,
    lemma_groups_cover_registers, registers_group_fits, spec_group_registers, span_end,
    RegisterGroup,
};
use crate::metric::{
    all_below, cell_registers, cells_registers, collect_registers, lemma_cell_registers_below,
    lemma_metric_registers_below, metric_cells, metrics_registers, Metric, MetricContent, ModbusCell,
};
use crate::metric::{all_labels_distinct, have_distinct_labels, metric_type_name};
use crate::decimal::{decimal, format_integer};
use crate::sorting::{address_leq, sort_registers, sorted_registers};

verus! {

/// The registers read by `metrics`, sorted.
pub open spec fn store_registers(metrics: Seq<Metric>) -> Seq<u16> {
    sorted_registers(metrics_registers(metrics))
}

/// Whether a store can be built for `metrics`: each labelled metric has
/// distinct label values, they read at least one register, and grouping
/// their sorted registers stays within 16-bit arithmetic.
pub open spec fn creatable(metrics: Seq<Metric>) -> bool {
    &&& all_labels_distinct(metrics)
    &&& metrics_registers(metrics).len() > 0
    &&& groups_fit(store_registers(metrics))
}

/// The register table, the metrics read from it and the groups of registers
/// read to fill it.
pub struct MetricStore {
    metrics: Vec<Metric>,
    reg_groups: Vec<RegisterGroup>,
    reg_table: Vec<u16>,
}

impl MetricStore {
    /// The metrics of the store.
    pub closed spec fn metrics(&self) -> Seq<Metric> {
        self.metrics@
    }

    /// The groups of registers the store is filled from.
    pub closed spec fn groups(&self) -> Seq<RegisterGroup> {
        self.reg_groups@
    }

    /// The register table: the value of register `a` is `table()[a]`.
    pub closed spec fn table(&self) -> Seq<u16> {
        self.reg_table@
    }

    /// The invariant of a store: label values are distinct within each
    /// metric, the table reaches the highest register read
    /// by the metrics, and the groups are those of the sorted registers.
    pub closed spec fn wf(&self) -> bool {
        let regs = metrics_registers(self.metrics@);
        &&& all_labels_distinct(self.metrics@)
        &&& regs.len() > 0
        &&& self.reg_table@.len() == store_registers(self.metrics@).last() + 1
        &&& all_below(regs, self.reg_table@.len() as int)
        &&& group_spans(self.reg_groups@) == spec_group_registers(store_registers(self.metrics@))
        &&& forall|j: int|
            0 <= j < self.reg_groups@.len() ==> #[trigger] self.reg_groups@[j].start_address
                + self.reg_groups@[j].length <= self.reg_table@.len()
    }

    /// Whether a store can be built for `metrics` (see [`creatable`]).
    pub fn is_creatable(metrics: &Vec<Metric>) -> (b: bool)
        ensures
            b == creatable(metrics@),
    {
        if !have_distinct_labels(metrics) {
            return false;
        }
        let mut regs = collect_registers(metrics);
        if regs.len() == 0 {
            return false;
        }
        sort_registers(&mut regs);
        registers_group_fits(regs.as_slice())
    }

    /// Builds the store of `metrics`: a zeroed table up to the highest
    /// register read, and the groups of the sorted registers.
    pub fn create(metrics: Vec<Metric>) -> (store: MetricStore)
        requires
            creatable(metrics@),
        ensures
            store.wf(),
            store.metrics() == metrics@,
            store.table() == Seq::new(
                (store_registers(metrics@).last() + 1) as nat,
                |i: int| 0u16,
            ),
            group_spans(store.groups()) == spec_group_registers(store_registers(metrics@)),
    {
        let mut regs = collect_registers(&metrics);
        let ghost unsorted = regs@;
        sort_registers(&mut regs);
        proof {
            lemma_sorted_bounds(unsorted);
        }
        let max = regs[regs.len() - 1];
        let reg_table = vec![0u16; max as usize + 1];
        let reg_groups = group_registers(regs.as_slice());
        proof {
            assert forall|j: int| 0 <= j < reg_groups@.len() implies #[trigger] reg_groups@[j].start_address
                + reg_groups@[j].length <= reg_table@.len() by {
                assert(group_spans(reg_groups@)[j] == spec_group_registers(regs@)[j]);
                lemma_group_ends_are_registers(regs@, j);
                let k = choose|k: int|
                    0 <= k < regs@.len() && regs@[k] as int == span_end(spec_group_registers(regs@)[j]) - 1;
                assert(regs@[k] <= regs@.last());
            }
        }
        let store = MetricStore { metrics, reg_groups, reg_table };
        assert(store.table() =~= Seq::new((max + 1) as nat, |i: int| 0u16));
        store
    }
}

/// `v` read as a two's complement 16-bit number.
pub open spec fn signed16(v: int) -> int {
    if v >= 0x8000 {
        v - 0x10000
    } else {
        v
    }
}

/// `v` read as a two's complement 32-bit number.
pub open spec fn signed32(v: int) -> int {
    if v >= 0x8000_0000 {
        v - 0x1_0000_0000
    } else {
        v
    }
}

/// The value of `cell` in `table`: one register, or the low register plus
/// 2^16 times the high one; read as two's complement when `signed`.
pub open spec fn cell_value(table: Seq<u16>, cell: ModbusCell, signed: bool) -> int {
    match cell.1 {
        None => if signed {
            signed16(table[cell.0 as int] as int)
        } else {
            table[cell.0 as int] as int
        },
        Some(high) => {
            let raw = table[cell.0 as int] + 0x10000 * table[high as int];
            if signed {
                signed32(raw)
            } else {
                raw
            }
        },
    }
}

/// The samples of metric `m`, the `i`-th of the store: for each cell, the
/// metric's index and the cell's value.
pub open spec fn metric_samples(table: Seq<u16>, m: Metric, i: int) -> Seq<(int, int)> {
    metric_cells(m).map_values(|c: ModbusCell| (i, cell_value(table, c, m.signed)))
}

/// The samples of `metrics`, in order.
pub open spec fn samples_of(table: Seq<u16>, metrics: Seq<Metric>) -> Seq<(int, int)>
    decreases metrics.len(),
{
    if metrics.len() == 0 {
        seq![]
    } else {
        samples_of(table, metrics.drop_last()) + metric_samples(
            table,
            metrics.last(),
            metrics.len() - 1,
        )
    }
}

impl MetricStore {
    /// The groups of registers to read to fill the table.
    pub fn register_groups(&self) -> (groups: &Vec<RegisterGroup>)
        ensures
            groups@ == self.groups(),
    {
        &self.reg_groups
    }

    /// The number of registers in the table.
    pub fn table_len(&self) -> (n: usize)
        ensures
            n == self.table().len(),
    {
        self.reg_table.len()
    }

    /// Stores `values` into the table, from register `start_address` on.
    pub fn update_registers(&mut self, start_address: u16, values: &[u16])
        requires
            old(self).wf(),
            start_address + values@.len() <= old(self).table().len(),
        ensures
            final(self).wf(),
            final(self).metrics() == old(self).metrics(),
            final(self).groups() == old(self).groups(),
            final(self).table().len() == old(self).table().len(),
            forall|a: int|
                0 <= a < final(self).table().len() ==> #[trigger] final(self).table()[a] == if start_address
                    <= a < start_address + values@.len() {
                    values@[a - start_address]
                } else {
                    old(self).table()[a]
                },
    {
        let ghost old_table = self.reg_table@;
        let n = self.reg_table.len();
        let mut offset: usize = 0;
        while offset < values.len()
            invariant
                offset <= values@.len(),
                start_address + values@.len() <= old_table.len(),
                self.reg_table@.len() == old_table.len(),
                old_table.len() == n,
                self.metrics@ == old(self).metrics@,
                self.reg_groups@ == old(self).reg_groups@,
                forall|a: int|
                    0 <= a < self.reg_table@.len() ==> #[trigger] self.reg_table@[a] == if start_address <= a
                        < start_address + offset {
                        values@[a - start_address]
                    } else {
                        old_table[a]
                    },
            decreases values@.len() - offset,
        {
            self.reg_table.set(start_address as usize + offset, values[offset]);
            offset += 1;
        }
    }

    /// The value of `cell` in the table.
    fn read_cell(&self, cell: ModbusCell, signed: bool) -> (v: i64)
        requires
            cell_registers(cell).len() > 0,
            forall|k: int|
                0 <= k < cell_registers(cell).len() ==> #[trigger] cell_registers(cell)[k]
                    < self.table().len(),
        ensures
            v == cell_value(self.table(), cell, signed),
    {
        let ModbusCell(low, high) = cell;
        assert(cell_registers(cell)[0] == low);
        match high {
            None => {
                let v = self.reg_table[low as usize];
                if signed && v >= 0x8000 {
                    v as i64 - 0x10000
                } else {
                    v as i64
                }
            },
            Some(high) => {
                assert(cell_registers(cell)[1] == high);
                let low_32 = self.reg_table[low as usize] as u32;
                let high_32 = self.reg_table[high as usize] as u32;
                let raw = low_32 + high_32 * 0x10000;
                if signed && raw >= 0x8000_0000 {
                    raw as i64 - 0x1_0000_0000
                } else {
                    raw as i64
                }
            },
        }
    }
}

/// Whether the samples `v` produced by [`MetricStore::samples`] are `s`.
pub open spec fn samples_are(v: Seq<(usize, i64)>, s: Seq<(int, int)>) -> bool {
    &&& v.len() == s.len()
    &&& forall|k: int| 0 <= k < v.len() ==> #[trigger] v[k].0 == s[k].0 && v[k].1 == s[k].1
}

impl MetricStore {
    /// The samples of the metrics, in the order they are exported: for each
    /// metric, for each of its cells, the metric's index and the cell's value.
    #[verifier::spinoff_prover]
    pub fn samples(&self) -> (out: Vec<(usize, i64)>)
        requires
            self.wf(),
        ensures
            samples_are(out@, samples_of(self.table(), self.metrics())),
            out@.len() == sample_count(self.metrics()),
    {
        proof {
            lemma_samples_count(self.reg_table@, self.metrics@);
        }
        let ghost table = self.reg_table@;
        let ghost ms = self.metrics@;
        let mut out: Vec<(usize, i64)> = Vec::new();
        let mut i: usize = 0;
        while i < self.metrics.len()
            invariant
                self.wf(),
                i <= ms.len(),
                table == self.table(),
                ms == self.metrics(),
                samples_are(out@, samples_of(table, ms.take(i as int))),
            decreases ms.len() - i,
        {
            assert(ms.take(i + 1).drop_last() =~= ms.take(i as int));
            assert(ms.take(i + 1).last() == ms[i as int]);
            let m = &self.metrics[i];
            proof {
                lemma_metric_registers_below(ms, i as int, table.len() as int);
            }
            let ghost cells = metric_cells(*m);
            let ghost before = out@;
            let ghost expected = metric_samples(table, *m, i as int);
            match &m.regs {
                MetricContent::Single(c) => {
                    proof {
                        lemma_cell_registers_below(cells, 0, table.len() as int);
                    }
                    let v = self.read_cell(*c, m.signed);
                    out.push((i, v));
                },
                MetricContent::Many { label: _, values } => {
                    let mut k: usize = 0;
                    while k < values.len()
                        invariant
                            self.wf(),
                            k <= values@.len(),
                            table == self.table(),
                            cells == values@.map_values(|p: (String, ModbusCell)| p.1),
                            all_below(cells_registers(cells), table.len() as int),
                            expected == cells.map_values(
                                |c: ModbusCell| (i as int, cell_value(table, c, m.signed)),
                            ),
                            samples_are(out@, samples_of(table, ms.take(i as int)) + expected.take(k as int)),
                        decreases values@.len() - k,
                    {
                        proof {
                            lemma_cell_registers_below(cells, k as int, table.len() as int);
                        }
                        let v = self.read_cell(values[k].1, m.signed);
                        out.push((i, v));
                        assert(expected.take(k + 1) =~= expected.take(k as int).push(expected[k as int]));
                        k += 1;
                    }
                    assert(expected.take(k as int) =~= expected);
                },
            }
            i += 1;
        }
        assert(ms.take(i as int) =~= ms);
        out
    }
}

/// The decimal renderings of the values of `samples`, in order.
pub open spec fn decimal_samples(samples: Seq<(int, int)>) -> Seq<Seq<char>> {
    samples.map_values(|p: (int, int)| decimal(p.1))
}

/// The number of samples of `metrics`.
pub open spec fn sample_count(metrics: Seq<Metric>) -> int
    decreases metrics.len(),
{
    if metrics.len() == 0 {
        0
    } else {
        sample_count(metrics.drop_last()) + metric_cells(metrics.last()).len()
    }
}

/// The `# HELP` and `# TYPE` lines of a metric.
pub open spec fn metric_header(m: Metric) -> Seq<char> {
    "# HELP "@ + m.name@ + " "@ + m.desc@ + "\n# TYPE "@ + m.name@ + " "@ + metric_type_name(
        m.metric_type,
    ) + "\n"@
}

/// What precedes the value of the `k`-th sample of `m` on its line: the
/// metric's name, and for a labelled metric the label and its value.
pub open spec fn sample_prefix(m: Metric, k: int) -> Seq<char> {
    match m.regs {
        MetricContent::Single(_) => m.name@ + " "@,
        MetricContent::Many { label, values } => m.name@ + "{"@ + label@ + "=\""@ + values@[k].0@
            + "\"} "@,
    }
}

/// The sample lines of `m`, with the first `n` of `values` as the values.
pub open spec fn sample_lines(m: Metric, values: Seq<Seq<char>>, n: int) -> Seq<char>
    decreases n,
{
    if n <= 0 {
        seq![]
    } else {
        sample_lines(m, values, n - 1) + sample_prefix(m, n - 1) + values[n - 1] + "\n"@
    }
}

/// The exposition of one metric: its header, one line per sample and an
/// empty line.
pub open spec fn metric_block(m: Metric, values: Seq<Seq<char>>) -> Seq<char> {
    metric_header(m) + sample_lines(m, values, metric_cells(m).len() as int) + "\n"@
}

/// The Prometheus text exposition of `metrics`, with `values` as the
/// rendered values of their samples, in order.
pub open spec fn exposition(metrics: Seq<Metric>, values: Seq<Seq<char>>) -> Seq<char>
    decreases metrics.len(),
{
    if metrics.len() == 0 {
        seq![]
    } else {
        let before = sample_count(metrics.drop_last());
        exposition(metrics.drop_last(), values.take(before)) + metric_block(
            metrics.last(),
            values.skip(before),
        )
    }
}

/// How a value is read from the register table. A one-register cell holds
/// its register, less 2^16 when signed and the register's top bit is set. A
/// two-register cell holds `low + 2^16 * high`, less 2^32 when signed and the
/// top bit of the high register is set: the signed value is the 32-bit two's
/// complement number whose bits are `low | high << 16`.
pub proof fn lemma_cell_value_words(table: Seq<u16>, low: u16, high: u16)
    requires
        low < table.len(),
        high < table.len(),
    ensures
        cell_value(table, ModbusCell(low, None), false) == table[low as int] as int,
        cell_value(table, ModbusCell(low, None), true) == table[low as int] as int - if table[
            low as int] >= 0x8000 {
            0x10000int
        } else {
            0int
        },
        cell_value(table, ModbusCell(low, Some(high)), false) == table[low as int] as int
            + 0x10000 * (table[high as int] as int),
        cell_value(table, ModbusCell(low, Some(high)), true) == table[low as int] as int
            + 0x10000 * (table[high as int] as int) - if table[high as int] >= 0x8000 {
            0x1_0000_0000int
        } else {
            0int
        },
        -0x8000 <= cell_value(table, ModbusCell(low, None), true) < 0x8000,
        -0x8000_0000 <= cell_value(table, ModbusCell(low, Some(high)), true) < 0x8000_0000,
{
}

/// The sample lines of a metric depend only on the first `n` values.
proof fn lemma_sample_lines_prefix(m: Metric, a: Seq<Seq<char>>, b: Seq<Seq<char>>, n: int)
    requires
        0 <= n <= a.len(),
        n <= b.len(),
        forall|k: int| 0 <= k < n ==> #[trigger] a[k] == b[k],
    ensures
        sample_lines(m, a, n) == sample_lines(m, b, n),
    decreases n,
{
    if n > 0 {
        lemma_sample_lines_prefix(m, a, b, n - 1);
        assert(a[n - 1] == b[n - 1]);
    }
}

/// The exposition of `metrics` followed by `m` is the exposition of
/// `metrics` on the first `k` values, `k` being the number of samples of
/// `metrics`, followed by the block of `m` on the next values, one per cell
/// of `m`: every metric shows the values at the positions of its own samples.
pub proof fn lemma_exposition_push(metrics: Seq<Metric>, m: Metric, values: Seq<Seq<char>>)
    requires
        sample_count(metrics) + metric_cells(m).len() <= values.len(),
    ensures
        exposition(metrics.push(m), values) == exposition(
            metrics,
            values.take(sample_count(metrics)),
        ) + metric_block(
            m,
            values.subrange(
                sample_count(metrics),
                sample_count(metrics) + metric_cells(m).len(),
            ),
        ),
{
    let k = sample_count(metrics);
    let c = metric_cells(m).len() as int;
    assert(metrics.push(m).drop_last() =~= metrics);
    assert(metrics.push(m).last() == m);
    lemma_sample_count_nonneg(metrics);
    lemma_sample_lines_prefix(m, values.skip(k), values.subrange(k, k + c), c);
}

proof fn lemma_sample_count_nonneg(metrics: Seq<Metric>)
    ensures
        sample_count(metrics) >= 0,
    decreases metrics.len(),
{
    if metrics.len() > 0 {
        lemma_sample_count_nonneg(metrics.drop_last());
    }
}

/// The characters of each string.
pub open spec fn string_views(v: Seq<String>) -> Seq<Seq<char>> {
    v.map_values(|s: String| s@)
}

proof fn lemma_samples_count(table: Seq<u16>, metrics: Seq<Metric>)
    ensures
        samples_of(table, metrics).len() == sample_count(metrics),
    decreases metrics.len(),
{
    if metrics.len() > 0 {
        lemma_samples_count(table, metrics.drop_last());
    }
}

proof fn lemma_sample_count_monotone(metrics: Seq<Metric>, i: int)
    requires
        0 <= i <= metrics.len(),
    ensures
        sample_count(metrics.take(i)) <= sample_count(metrics),
    decreases metrics.len() - i,
{
    if i < metrics.len() {
        lemma_sample_count_monotone(metrics, i + 1);
        assert(metrics.take(i + 1).drop_last() =~= metrics.take(i));
    } else {
        assert(metrics.take(i) =~= metrics);
    }
}

/// Appends the `# HELP` and `# TYPE` lines of `m` to `out`.
fn append_metric_header(out: &mut String, m: &Metric)
    ensures
        final(out)@ == old(out)@ + metric_header(*m),
{
    out.append("# HELP ");
    out.append(m.name.as_str());
    out.append(" ");
    out.append(m.desc.as_str());
    out.append("\n# TYPE ");
    out.append(m.name.as_str());
    out.append(" ");
    let type_str = m.metric_type.to_string();
    out.append(type_str.as_str());
    out.append("\n");
    assert(final(out)@ =~= old(out)@ + metric_header(*m)) by {
        assert(out@ =~= old(out)@ + metric_header(*m));
    }
}

/// Appends the sample lines of `m` to `out`, with the values of
/// `values[start..]`.
fn append_sample_lines(out: &mut String, m: &Metric, values: &Vec<String>, start: usize)
    requires
        start + metric_cells(*m).len() <= values@.len(),
    ensures
        final(out)@ == old(out)@ + sample_lines(
            *m,
            string_views(values@).subrange(
                start as int,
                start + metric_cells(*m).len(),
            ),
            metric_cells(*m).len() as int,
        ),
{
    let ghost mvals = string_views(values@).subrange(start as int, start + metric_cells(*m).len());
    match &m.regs {
        MetricContent::Single(_) => {
            out.append(m.name.as_str());
            out.append(" ");
            out.append(values[start].as_str());
            out.append("\n");
            assert(mvals[0] == values@[start as int]@);
            assert(sample_lines(*m, mvals, 0) =~= Seq::<char>::empty());
            assert(out@ =~= old(out)@ + sample_lines(*m, mvals, 1));
        },
        MetricContent::Many { label: label_name, values: label_values } => {
            let ghost before = out@;
            let vlen = values.len();
            let mut k: usize = 0;
            while k < label_values.len()
                invariant
                    k <= label_values@.len(),
                    start + label_values@.len() <= values@.len(),
                    vlen == values@.len(),
                    metric_cells(*m).len() == label_values@.len(),
                    mvals == string_views(values@).subrange(start as int, start + label_values@.len()),
                    m.regs == (MetricContent::Many { label: *label_name, values: *label_values }),
                    out@ == before + sample_lines(*m, mvals, k as int),
                decreases label_values@.len() - k,
            {
                out.append(m.name.as_str());
                out.append("{");
                out.append(label_name.as_str());
                out.append("=\"");
                out.append(label_values[k].0.as_str());
                out.append("\"} ");
                out.append(values[start + k].as_str());
                out.append("\n");
                assert(mvals[k as int] == values@[start + k]@);
                assert(out@ =~= before + sample_lines(*m, mvals, k + 1));
                k += 1;
            }
        },
    }
}

impl MetricStore {
    /// The values of the samples listed by [`MetricStore::samples`], in the
    /// same order, each in decimal: what a metric without a value mapping
    /// exports for its current registers.
    pub fn decimal_values(&self) -> (out: Vec<String>)
        requires
            self.wf(),
        ensures
            out@.len() == sample_count(self.metrics()),
            string_views(out@) == decimal_samples(samples_of(self.table(), self.metrics())),
    {
        let samples = self.samples();
        let ghost s = samples_of(self.table(), self.metrics());
        let mut out: Vec<String> = Vec::new();
        let mut k: usize = 0;
        while k < samples.len()
            invariant
                samples_are(samples@, s),
                k <= samples@.len(),
                out@.len() == k,
                forall|j: int| 0 <= j < k ==> #[trigger] out@[j]@ == decimal(s[j].1),
            decreases samples@.len() - k,
        {
            assert(samples@[k as int].0 == s[k as int].0 && samples@[k as int].1 == s[k as int].1);
            out.push(format_integer(samples[k].1));
            k += 1;
        }
        assert(string_views(out@) =~= decimal_samples(s));
        out
    }

    /// Encodes the metrics in the Prometheus text exposition format, with
    /// `values` as the rendered values of the samples listed by
    /// [`MetricStore::samples`], in the same order.
    pub fn encode_prometheus(&self, values: &Vec<String>) -> (out: String)
        requires
            values@.len() == sample_count(self.metrics()),
        ensures
            out@ == exposition(self.metrics(), string_views(values@)),
    {
        let ghost ms = self.metrics@;
        let ghost vals = string_views(values@);
        let mut out = String::new();
        let mut i: usize = 0;
        let mut next: usize = 0;
        let vlen = values.len();
        assert(ms.take(0) =~= Seq::<Metric>::empty());
        assert(vals.take(0) =~= Seq::<Seq<char>>::empty());
        while i < self.metrics.len()
            invariant
                i <= ms.len(),
                ms == self.metrics(),
                vals == string_views(values@),
                values@.len() == sample_count(ms),
                vlen == values@.len(),
                next == sample_count(ms.take(i as int)),
                out@ == exposition(ms.take(i as int), vals.take(next as int)),
            decreases ms.len() - i,
        {
            let metric = &self.metrics[i];
            proof {
                assert(ms.take(i + 1).drop_last() =~= ms.take(i as int));
                assert(ms.take(i + 1).last() == ms[i as int]);
                lemma_sample_count_monotone(ms, i + 1);
            }
            let n = match &metric.regs {
                MetricContent::Single(_) => 1,
                MetricContent::Many { label: _, values: label_values } => label_values.len(),
            };
            assert(n == metric_cells(*metric).len());
            append_metric_header(&mut out, metric);
            append_sample_lines(&mut out, metric, values, next);
            out.append("\n");
            let ghost new_next = next + n;
            proof {
                assert(vals.take(new_next).take(next as int) =~= vals.take(next as int));
                assert(vals.take(new_next).skip(next as int) =~= vals.subrange(next as int, new_next));
                assert(out@ =~= exposition(ms.take(i + 1), vals.take(new_next)));
            }
            next = next + n;
            i += 1;
        }
        assert(ms.take(i as int) =~= ms);
        assert(vals.take(next as int) =~= vals);
        out
    }
}

impl MetricStore {
    /// Reading every group of the store fills every register that a metric
    /// reads: each such register lies in one of the groups.
    pub proof fn lemma_groups_cover_metric_registers(&self, k: int)
        requires
            self.wf(),
            0 <= k < metrics_registers(self.metrics()).len(),
        ensures
            exists|j: int|
                0 <= j < self.groups().len() && #[trigger] self.groups()[j].start_address
                    <= metrics_registers(self.metrics())[k] < self.groups()[j].start_address
                    + self.groups()[j].length,
    {
        broadcast use vstd::seq_lib::group_to_multiset_ensures;
        let regs = metrics_registers(self.metrics());
        let sorted = store_registers(self.metrics());
        let x = regs[k];
        regs.lemma_sort_by_ensures(address_leq());
        assert(regs.to_multiset().count(x) > 0);
        assert(sorted.contains(x));
        let i = choose|i: int| 0 <= i < sorted.len() && sorted[i] == x;
        lemma_groups_cover_registers(sorted, i);
        let spans = spec_group_registers(sorted);
        let j = choose|j: int| 0 <= j < spans.len() && #[trigger] covers(spans[j], sorted[i] as int);
        assert(group_spans(self.groups())[j] == spans[j]);
        assert(self.groups()[j].start_address <= x < self.groups()[j].start_address
            + self.groups()[j].length);
    }
}

/// Whether metrics scraped `since_last_scrape` ago (`None` when they never
/// were) may be served again by a cache that keeps them for `max_age`; the
/// two durations are in the same unit.
pub fn cache_is_fresh(since_last_scrape: Option<u128>, max_age: u128) -> (fresh: bool)
    ensures
        fresh == (since_last_scrape matches Some(age) && age < max_age),
{
    match since_last_scrape {
        Some(age) => age < max_age,
        None => false,
    }
}

/// The highest of a sequence of registers is the last of its sorted order,
/// and every register is at most that.
proof fn lemma_sorted_bounds(regs: Seq<u16>)
    requires
        regs.len() > 0,
    ensures
        sorted_registers(regs).len() == regs.len(),
        forall|k: int| 0 <= k < regs.len() ==> regs[k] <= sorted_registers(regs).last(),
        forall|k: int|
            0 <= k < sorted_registers(regs).len() ==> sorted_registers(regs)[k] <= sorted_registers(
                regs,
            ).last(),
{
    broadcast use vstd::seq_lib::group_to_multiset_ensures;
    let s = sorted_registers(regs);
    regs.lemma_sort_by_ensures(address_leq());
    assert(s.len() == regs.len()) by {
        assert(s.to_multiset().len() == regs.to_multiset().len());
    }
    assert forall|k: int| 0 <= k < s.len() implies s[k] <= s.last() by {
        if k < s.len() - 1 {
            assert(sorted_by(s, address_leq()));
            assert((address_leq())(s[k], s[s.len() - 1]));
        }
    }
    assert forall|k: int| 0 <= k < regs.len() implies regs[k] <= s.last() by {
        assert(regs.to_multiset().count(regs[k]) > 0);
        assert(s.to_multiset().count(regs[k]) > 0);
        assert(s.contains(regs[k]));
    }
}

} // verus!
