use solarman::decimal::format_integer;
use solarman::grouping::{group_registers, registers_group_fits, RegisterGroup};
use solarman::metric::{collect_registers, Metric, MetricContent, MetricType, ModbusCell};
use solarman::sorting::sort_registers;
use solarman::store::{cache_is_fresh, MetricStore};

fn group(start_address: u16, length: u16) -> RegisterGroup {
    RegisterGroup { start_address, length }
}

fn metrics() -> Vec<Metric> {
    vec![
        Metric {
            name: "battery_power".to_string(),
            desc: "Battery power".to_string(),
            metric_type: MetricType::Gauge,
            signed: true,
            regs: MetricContent::Single(ModbusCell(10, None)),
        },
        Metric {
            name: "energy_total".to_string(),
            desc: "Total energy".to_string(),
            metric_type: MetricType::Counter,
            signed: false,
            regs: MetricContent::Many {
                label: "phase".to_string(),
                values: vec![
                    ("a".to_string(), ModbusCell(30, Some(31))),
                    ("b".to_string(), ModbusCell(2, None)),
                ],
            },
        },
    ]
}

#[test]
fn metric_type_names() {
    assert_eq!(MetricType::Gauge.to_string(), "gauge");
    assert_eq!(MetricType::Counter.to_string(), "counter");
}

#[test]
fn cell_from_integer_truncates() {
    assert!(ModbusCell::from_i64(5) == ModbusCell(5, None));
    assert!(ModbusCell::from_i64(70000) == ModbusCell(4464, None));
    assert!(ModbusCell::from_i64(-1) == ModbusCell(65535, None));
}

#[test]
fn registers_collected_in_order() {
    assert_eq!(collect_registers(&metrics()), vec![10, 30, 31, 2]);
}

#[test]
fn registers_sorted() {
    let mut regs = vec![10, 30, 31, 2, 10];
    sort_registers(&mut regs);
    assert_eq!(regs, vec![2, 10, 10, 30, 31]);
}

#[test]
fn groups_join_gaps_up_to_ten() {
    let g = group_registers(&[1, 2, 3, 20, 25, 40]);
    assert!(g == vec![group(1, 3), group(20, 6), group(40, 1)]);
}

#[test]
fn groups_split_at_gap_of_eleven() {
    let g = group_registers(&[0, 10, 21]);
    assert!(g == vec![group(0, 22)]);
    let g = group_registers(&[0, 10, 22]);
    assert!(g == vec![group(0, 11), group(22, 1)]);
    let g = group_registers(&[0, 11]);
    assert!(g == vec![group(0, 12)]);
    let g = group_registers(&[0, 12]);
    assert!(g == vec![group(0, 1), group(12, 1)]);
}

#[test]
fn repeated_register_opens_new_group() {
    let g = group_registers(&[5, 5]);
    assert!(g == vec![group(5, 1), group(5, 1)]);
}

#[test]
fn no_registers_no_groups() {
    assert!(group_registers(&[]).is_empty());
}

#[test]
fn grouping_fit_check() {
    assert!(registers_group_fits(&[]));
    assert!(registers_group_fits(&[65535]));
    assert!(registers_group_fits(&[1, 2, 65520]));
    assert!(!registers_group_fits(&[65534, 65535]));
    assert!(!registers_group_fits(&[65535, 65535]));
}

#[test]
fn store_is_created_with_zeroed_table() {
    let ms = metrics();
    assert!(MetricStore::is_creatable(&ms));
    let store = MetricStore::create(ms);
    assert_eq!(store.table_len(), 32);
    assert!(store.register_groups() == &vec![group(2, 9), group(30, 2)]);
    assert_eq!(store.samples(), vec![(0, 0), (1, 0), (1, 0)]);
}

#[test]
fn store_without_registers_is_not_creatable() {
    let ms = vec![Metric {
        name: "x".to_string(),
        desc: "y".to_string(),
        metric_type: MetricType::Gauge,
        signed: false,
        regs: MetricContent::Many { label: "l".to_string(), values: vec![] },
    }];
    assert!(!MetricStore::is_creatable(&ms));
    assert!(!MetricStore::is_creatable(&vec![]));
}

#[test]
fn store_reads_back_written_registers() {
    let mut store = MetricStore::create(metrics());
    store.update_registers(2, &[7, 0, 0, 0, 0, 0, 0, 0, 0xFFFE]);
    store.update_registers(30, &[0x0001, 0x8000]);
    assert_eq!(
        store.samples(),
        vec![(0, -2), (1, 0x8000_0001), (1, 7)]
    );
}

#[test]
fn signed_two_register_value() {
    let ms = vec![Metric {
        name: "p".to_string(),
        desc: "q".to_string(),
        metric_type: MetricType::Gauge,
        signed: true,
        regs: MetricContent::Single(ModbusCell(0, Some(1))),
    }];
    let mut store = MetricStore::create(ms);
    store.update_registers(0, &[0xFFFF, 0xFFFF]);
    assert_eq!(store.samples(), vec![(0, -1)]);
    store.update_registers(0, &[0x0002, 0x0001]);
    assert_eq!(store.samples(), vec![(0, 65538)]);
}

#[test]
fn prometheus_exposition() {
    let mut store = MetricStore::create(metrics());
    store.update_registers(2, &[7]);
    let values: Vec<String> = store.samples().iter().map(|(_, v)| format_integer(*v)).collect();
    let text = store.encode_prometheus(&values);
    assert_eq!(
        text,
        "# HELP battery_power Battery power\n# TYPE battery_power gauge\nbattery_power 0\n\n\
         # HELP energy_total Total energy\n# TYPE energy_total counter\n\
         energy_total{phase=\"a\"} 0\nenergy_total{phase=\"b\"} 7\n\n"
    );
}

#[test]
fn integers_in_decimal() {
    assert_eq!(format_integer(0), "0");
    assert_eq!(format_integer(42), "42");
    assert_eq!(format_integer(-7), "-7");
    assert_eq!(format_integer(1_000_000), "1000000");
    assert_eq!(format_integer(i64::MIN), "-9223372036854775808");
    assert_eq!(format_integer(i64::MAX), "9223372036854775807");
}

#[test]
fn cache_freshness() {
    assert!(!cache_is_fresh(None, 30));
    assert!(cache_is_fresh(Some(29), 30));
    assert!(!cache_is_fresh(Some(30), 30));
}

#[test]
fn repeated_label_values_are_not_creatable() {
    let ms = vec![Metric {
        name: "x".to_string(),
        desc: "y".to_string(),
        metric_type: MetricType::Gauge,
        signed: false,
        regs: MetricContent::Many {
            label: "l".to_string(),
            values: vec![
                ("a".to_string(), ModbusCell(1, None)),
                ("b".to_string(), ModbusCell(2, None)),
                ("a".to_string(), ModbusCell(3, None)),
            ],
        },
    }];
    assert!(!solarman::metric::has_distinct_labels(&ms[0]));
    assert!(!MetricStore::is_creatable(&ms));
    assert!(solarman::metric::have_distinct_labels(&metrics()));
    assert!(MetricStore::is_creatable(&metrics()));
}

#[test]
fn decimal_values_follow_the_table() {
    let mut store = MetricStore::create(metrics());
    store.update_registers(2, &[7]);
    store.update_registers(10, &[0xFFFF]);
    store.update_registers(30, &[0xFFFF, 0xFFFF]);
    assert_eq!(
        store.decimal_values(),
        vec!["-1".to_string(), "4294967295".to_string(), "7".to_string()]
    );
    let out = store.encode_prometheus(&store.decimal_values());
    assert!(out.contains("battery_power -1\n"));
    assert!(out.contains("energy_total{phase=\"a\"} 4294967295\n"));
    assert!(out.contains("energy_total{phase=\"b\"} 7\n"));
}
