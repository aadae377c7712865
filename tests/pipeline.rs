use svdcmp::canon::tree_text;
use svdcmp::catalog::{Catalog, Options};
use svdcmp::fingerprint::fingerprint;
use svdcmp::groups::group_patterns;
use svdcmp::lines::sort_lines;
use svdcmp::model::{
    Cluster, Device, Dim, EnumeratedValue, EnumeratedValues, Field, Interrupt, Peripheral,
    Properties, Register, RegisterCluster, WriteConstraint,
};
use svdcmp::normalize::normalize_peripheral;
use svdcmp::pattern::{compress_names, excluded};
use svdcmp::similarity::{lcs_len, push_percent, similarity_tenths};
use svdcmp::store::ContentStore;

fn s(x: &str) -> String {
    x.to_string()
}

fn names(xs: &[&str]) -> Vec<String> {
    xs.iter().map(|x| x.to_string()).collect()
}

fn value(name: &str, v: u64) -> EnumeratedValue {
    EnumeratedValue { name: s(name), description: Some(s("meaning")), value: Some(v), is_default: None }
}

fn table(name: Option<&str>, values: Vec<EnumeratedValue>) -> EnumeratedValues {
    EnumeratedValues { name: name.map(s), usage: None, derived_from: None, values }
}

fn props(size: Option<u32>, reset_value: Option<u64>) -> Properties {
    Properties { size, access: None, protection: None, reset_value, reset_mask: None }
}

fn bare_register(name: &str, offset: u32, reset_value: Option<u64>, fields: Option<Vec<Field>>) -> Register {
    Register {
        name: s(name),
        description: None,
        display_name: None,
        dim: None,
        alternate_group: None,
        alternate_register: None,
        address_offset: offset,
        properties: props(None, reset_value),
        datatype: None,
        modified_write_values: None,
        write_constraint: None,
        read_action: None,
        derived_from: None,
        fields,
    }
}

fn field(name: &str, offset: u32, values: Vec<EnumeratedValue>) -> Field {
    Field {
        name: s(name),
        description: Some(s("a field")),
        dim: None,
        bit_offset: offset,
        bit_width: 1,
        access: None,
        modified_write_values: None,
        read_action: None,
        derived_from: None,
        enumerated_values: if values.is_empty() {
            vec![]
        } else {
            vec![table(None, values)]
        },
        write_constraint: None,
    }
}

fn register(name: &str, offset: u32, fields: Vec<Field>) -> RegisterCluster {
    let mut r = bare_register(name, offset, Some(0), Some(fields));
    r.description = Some(s("a register"));
    r.properties.size = Some(32);
    RegisterCluster::Register(r)
}

fn timer_registers(swap: bool, alt_values: bool) -> Vec<RegisterCluster> {
    let vals = if alt_values {
        vec![value("OFF", 0), value("ON", 1)]
    } else {
        vec![value("DISABLED", 0), value("ENABLED", 1)]
    };
    let cr1 = register("CR1", 0, vec![field("CEN", 0, vals), field("UDIS", 1, vec![])]);
    let sr = register("SR", 16, vec![field("UIF", 0, vec![])]);
    if swap {
        vec![sr, cr1]
    } else {
        vec![cr1, sr]
    }
}

fn peripheral(name: &str, group: Option<&str>, registers: Vec<RegisterCluster>) -> Peripheral {
    Peripheral {
        name: s(name),
        group_name: group.map(s),
        derived_from: None,
        description: Some(s("a timer")),
        display_name: None,
        base_address: 0x4000_0000,
        registers: Some(registers),
        interrupts: vec![Interrupt { name: s("IRQ"), description: Some(s("irq")), value: 3 }],
    }
}

fn all_options() -> Options {
    Options { keep_descriptions: false, show_name: false, compare_percent: true }
}

#[test]
fn pattern_two_single_char_suffixes() {
    assert_eq!(compress_names(&s("TIM"), &names(&["TIM1", "TIM2"])), "TIM[12]");
}

#[test]
fn pattern_wraps_long_suffix() {
    assert_eq!(compress_names(&s("TIM"), &names(&["TIM10", "TIM2"])), "TIM[{10}2]");
    assert_eq!(compress_names(&s("TIM"), &names(&["TIM1", "TIM10", "TIM2"])), "TIM[1{10}2]");
}

#[test]
fn pattern_single_members() {
    assert_eq!(compress_names(&s("TIM"), &names(&["TIM"])), "TIM");
    assert_eq!(compress_names(&s("TIM"), &names(&["TIM3"])), "TIM3");
    assert_eq!(compress_names(&s("TIM"), &names(&["TIM15"])), "TIM[{15}]");
    assert_eq!(compress_names(&s("USART"), &names(&["USART", "USART1"])), "USART[x1]");
}

#[test]
fn pattern_fallback_lists_names() {
    assert_eq!(compress_names(&s("ADC"), &names(&["ADC1", "SharedADC"])), "ADC: ADC1, SharedADC");
}

#[test]
fn group_patterns_skip_derived_and_sort() {
    let mut t2 = peripheral("TIM2", Some("TIM"), vec![]);
    t2.derived_from = Some(s("TIM1"));
    let ps = vec![
        peripheral("TIM3", Some("TIM"), vec![]),
        peripheral("GPIOA", None, vec![]),
        t2,
        peripheral("TIM1", Some("TIM"), vec![]),
        peripheral("TIM1", Some("TIM"), vec![]),
    ];
    assert_eq!(group_patterns(&ps), vec![s("GPIOA"), s("TIM[13]")]);
}

#[test]
fn normalize_sorts_and_strips() {
    let mut regs = timer_registers(true, false);
    regs.push(RegisterCluster::Cluster(Cluster {
        name: s("CH"),
        description: Some(s("channel")),
        dim: None,
        alternate_cluster: None,
        header_struct_name: None,
        address_offset: 8,
        default_properties: props(None, None),
        derived_from: None,
        children: vec![register("CCR", 4, vec![]), register("CCMR", 0, vec![])],
    }));
    if let RegisterCluster::Register(r) = &mut regs[1] {
        let fields = r.fields.as_mut().unwrap();
        fields.reverse();
        if let Some(t) = fields[1].enumerated_values.first_mut() {
            t.values.reverse();
        }
    }
    let q = normalize_peripheral(peripheral("TIM1", None, regs), false);
    assert_eq!(q.description, None);
    assert_eq!(q.interrupts[0].description, None);
    let regs = q.registers.unwrap();
    let names: Vec<&str> = regs
        .iter()
        .map(|rc| match rc {
            RegisterCluster::Register(r) => r.name.as_str(),
            RegisterCluster::Cluster(c) => c.name.as_str(),
        })
        .collect();
    assert_eq!(names, vec!["CR1", "CH", "SR"]);
    match &regs[0] {
        RegisterCluster::Register(r) => {
            assert_eq!(r.description, None);
            let fields = r.fields.as_ref().unwrap();
            assert_eq!(fields[0].name, "CEN");
            assert_eq!(fields[0].description, None);
            let vals = &fields[0].enumerated_values[0].values;
            assert_eq!(vals[0].value, Some(0));
            assert_eq!(vals[1].value, Some(1));
            assert_eq!(vals[0].description, None);
        }
        _ => panic!("expected a register"),
    }
    match &regs[1] {
        RegisterCluster::Cluster(c) => {
            assert_eq!(c.description, None);
            match &c.children[0] {
                RegisterCluster::Register(r) => assert_eq!(r.name, "CCMR"),
                _ => panic!("expected a register"),
            }
        }
        _ => panic!("expected a cluster"),
    }
}

#[test]
fn normalize_keeps_descriptions_when_asked() {
    let q = normalize_peripheral(peripheral("TIM1", None, timer_registers(true, false)), true);
    assert_eq!(q.description, Some(s("a timer")));
    match &q.registers.unwrap()[0] {
        RegisterCluster::Register(r) => {
            assert_eq!(r.name, "CR1");
            assert_eq!(r.description, Some(s("a register")));
        }
        _ => panic!("expected a register"),
    }
}

#[test]
fn canonical_text_of_small_tree() {
    let mut f = field("EN", 3, vec![value("ON", 1)]);
    f.description = None;
    f.write_constraint = Some(WriteConstraint::Range(0, 7));
    f.enumerated_values[0].values[0].description = None;
    let regs = vec![RegisterCluster::Register(bare_register("CR", 12, Some(255), Some(vec![f])))];
    assert_eq!(
        tree_text(&regs, false),
        "register CR @12\nreset-value 255\nfields\nfield EN @3 width 1\nwrite-constraint range 0 7\nenumerated-values\nvalue ON = 1\n"
    );
    assert_eq!(tree_text(&regs, true), "register CR @12\nreset-value 255\nfields\nfield EN @3 width 1\n");
    let no_fields = vec![RegisterCluster::Register(bare_register("CR", 12, None, None))];
    assert_eq!(tree_text(&no_fields, false), "register CR @12\n");
}

#[test]
fn canonical_text_escapes_free_text() {
    let mut named = field("F", 0, vec![]);
    named.description = None;
    named.enumerated_values = vec![table(Some("~\nvalue A = 1"), vec![])];
    let mut unnamed = field("F", 0, vec![]);
    unnamed.description = None;
    let mut v = value("A", 1);
    v.description = None;
    unnamed.enumerated_values = vec![table(None, vec![v])];
    let a = vec![RegisterCluster::Register(bare_register("R", 0, None, Some(vec![named])))];
    let b = vec![RegisterCluster::Register(bare_register("R", 0, None, Some(vec![unnamed])))];
    assert_eq!(
        tree_text(&a, false),
        "register R @0\nfields\nfield F @0 width 1\nenumerated-values ~\\nvalue A = 1\n"
    );
    assert_ne!(tree_text(&a, false), tree_text(&b, false));
    let fa = fingerprint(&a, &s("D"), &s("P"), false);
    let fb = fingerprint(&b, &s("D"), &s("P"), false);
    assert_ne!(fa.id[..8], fb.id[..8]);
    assert_eq!(fa.skeleton, fb.skeleton);
}

#[test]
fn canonical_text_keeps_arrays_and_access() {
    let single = vec![RegisterCluster::Register(bare_register("R", 0, None, None))];
    let mut arr = bare_register("R", 0, None, None);
    arr.dim = Some(Dim { count: 4, increment: 4, indexes: None, name: None });
    let mut ro = bare_register("R", 0, None, None);
    ro.properties.access = Some(s("ReadOnly"));
    let arr = vec![RegisterCluster::Register(arr)];
    let ro = vec![RegisterCluster::Register(ro)];
    assert_eq!(tree_text(&arr, false), "register R @0\ndim 4 4\n");
    assert_eq!(tree_text(&ro, false), "register R @0\naccess ReadOnly\n");
    let id = fingerprint(&single, &s("D"), &s("P"), false).id;
    assert_ne!(fingerprint(&arr, &s("D"), &s("P"), false).id, id);
    assert_ne!(fingerprint(&ro, &s("D"), &s("P"), false).id, id);
}

#[test]
fn fingerprint_of_empty_tree() {
    let fp = fingerprint(&vec![], &s("DEV"), &s("P"), false);
    assert_eq!(fp.payload, "");
    assert_eq!(fp.id, "d41d8cd9_d41d8cd9");
    let named = fingerprint(&vec![], &s("DEV"), &s("P"), true);
    assert_eq!(named.id, "d41d8cd9_DEV_P");
}

#[test]
fn fingerprint_ignores_input_order() {
    let a = normalize_peripheral(peripheral("TIM1", None, timer_registers(false, false)), false);
    let b = normalize_peripheral(peripheral("TIM1", None, timer_registers(true, false)), false);
    let fa = fingerprint(a.registers.as_ref().unwrap(), &s("D"), &a.name, false);
    let fb = fingerprint(b.registers.as_ref().unwrap(), &s("D"), &b.name, false);
    assert_eq!(fa.id, fb.id);
    assert_eq!(fa.payload, fb.payload);
    assert_eq!(fa.id.len(), 17);
}

#[test]
fn skeleton_ignores_enumerated_values() {
    let a = normalize_peripheral(peripheral("TIM1", None, timer_registers(false, false)), false);
    let b = normalize_peripheral(peripheral("TIM1", None, timer_registers(false, true)), false);
    let fa = fingerprint(a.registers.as_ref().unwrap(), &s("D"), &a.name, false);
    let fb = fingerprint(b.registers.as_ref().unwrap(), &s("D"), &b.name, false);
    assert_ne!(fa.id[..8], fb.id[..8]);
    assert_eq!(fa.id[9..], fb.id[9..]);
}

#[test]
fn store_put_twice_keeps_first() {
    let mut st = ContentStore::new();
    assert!(st.put(s("TIM"), s("abc"), s("k"), s("payload")));
    assert!(!st.put(s("TIM"), s("abc"), s("k"), s("payload")));
    assert!(!st.put(s("TIM"), s("abc"), s("k"), s("other")));
    assert_eq!(st.files.len(), 1);
    assert_eq!(st.files[0].payload, "payload");
    assert!(st.put(s("ADC"), s("abc"), s("k"), s("payload")));
    assert!(st.contains(&s("ADC"), &s("abc")));
    assert!(!st.contains(&s("ADC"), &s("abd")));
}

#[test]
fn similarity_values() {
    let a = b"abc".to_vec();
    let b = b"abd".to_vec();
    assert_eq!(lcs_len(&a, &b), 2);
    assert_eq!(similarity_tenths(&a, &b), 666);
    assert_eq!(similarity_tenths(&a, &a), 1000);
    assert_eq!(similarity_tenths(&a, &b"xyz".to_vec()), 0);
    assert_eq!(similarity_tenths(&vec![], &vec![]), 1000);
    assert_eq!(similarity_tenths(&a, &vec![]), 0);
    assert_eq!(lcs_len(&b"AGGTAB".to_vec(), &b"GXTXAYB".to_vec()), 4);
}

#[test]
fn percent_text_is_fixed_width() {
    let mut t = String::new();
    push_percent(&mut t, 100);
    assert_eq!(t, " 10.0%");
    let mut t = String::new();
    push_percent(&mut t, 1000);
    assert_eq!(t, "100.0%");
    let mut t = String::new();
    push_percent(&mut t, 5);
    assert_eq!(t, "  0.5%");
}

#[test]
fn report_lines_sort_by_ratio() {
    let mut lines = Vec::new();
    for (r, d) in [(100u64, "a"), (999, "b"), (500, "c")] {
        let mut t = String::new();
        push_percent(&mut t, r);
        t.push_str(" x ");
        t.push_str(d);
        lines.push(t);
    }
    let sorted = sort_lines(lines);
    assert_eq!(sorted, vec![s(" 10.0% x a"), s(" 50.0% x c"), s(" 99.9% x b")]);
}

#[test]
fn end_to_end_two_devices_share_one_tree() {
    let mut cat = Catalog::new();
    let opts = all_options();
    let id1 = cat.add_peripheral(&s("DEVA"), peripheral("TIM1", Some("TIM"), timer_registers(false, false)), opts);
    let id2 = cat.add_peripheral(&s("DEVB"), peripheral("TIM2", Some("TIM"), timer_registers(true, false)), opts);
    assert_eq!(id1, id2);
    let id = id1.unwrap();
    assert_eq!(cat.store.files.len(), 1);
    assert_eq!(cat.store.files[0].group, "TIM");
    assert_eq!(cat.index_groups(), vec![s("TIM")]);
    let listing = cat.listing(&s("TIM"), true);
    assert_eq!(listing, format!("{id} TIM1 DEVA\n{id} TIM2 DEVB"));
}

#[test]
fn end_to_end_similarity_report() {
    let mut cat = Catalog::new();
    let opts = all_options();
    let a = cat.add_peripheral(&s("DEVA"), peripheral("TIM1", Some("TIM"), timer_registers(false, false)), opts).unwrap();
    let mut other = timer_registers(false, false);
    other.push(register("EXTRA", 32, vec![]));
    let b = cat.add_peripheral(&s("DEVB"), peripheral("TIM2", Some("TIM"), other), opts).unwrap();
    assert_ne!(a, b);
    assert_eq!(cat.store.files.len(), 2);
    let listing = cat.listing(&s("TIM"), true);
    let parts: Vec<&str> = listing.split("\n\n").collect();
    assert_eq!(parts.len(), 2);
    let report = parts[1];
    assert!(report.ends_with(&format!("% {a} {b}")));
    let ratio: f64 = report[..5].trim().parse().unwrap();
    assert!(ratio > 0.0 && ratio < 100.0);
    assert_eq!(cat.listing(&s("TIM"), false), parts[0]);
}

#[test]
fn end_to_end_show_name_keeps_no_index() {
    let mut cat = Catalog::new();
    let opts = Options { keep_descriptions: false, show_name: true, compare_percent: false };
    let id = cat.add_peripheral(&s("DEVA"), peripheral("TIM1", Some("TIM"), timer_registers(false, false)), opts).unwrap();
    assert!(id.ends_with("_DEVA_TIM1"));
    assert_eq!(cat.index.len(), 0);
    assert_eq!(cat.store.files.len(), 1);
    let mut p = peripheral("EMPTY", None, vec![]);
    p.registers = None;
    assert_eq!(cat.add_peripheral(&s("DEVA"), p, opts), None);
}

#[test]
fn excluded_by_prefix() {
    assert!(excluded(&s("STM32MP157"), &s("STM32MP1")));
    assert!(!excluded(&s("STM32F401"), &s("STM32MP1")));
    assert!(excluded(&s("X"), &s("")));
}

#[test]
fn add_device_adds_each_peripheral() {
    let mut cat = Catalog::new();
    let dev = Device {
        name: s("DEVA"),
        peripherals: vec![
            peripheral("TIM1", Some("TIM"), timer_registers(false, false)),
            peripheral("TIM2", Some("TIM"), timer_registers(false, true)),
        ],
    };
    cat.add_device(dev, all_options());
    assert_eq!(cat.store.files.len(), 2);
    assert_eq!(cat.index.len(), 2);
}

#[test]
fn report_collapses_equal_skeletons() {
    let mut cat = Catalog::new();
    let opts = all_options();
    cat.add_peripheral(&s("DEVA"), peripheral("TIM1", Some("TIM"), timer_registers(false, false)), opts);
    cat.add_peripheral(&s("DEVB"), peripheral("TIM2", Some("TIM"), timer_registers(false, true)), opts);
    let mut other = timer_registers(false, false);
    other.push(register("EXTRA", 32, vec![]));
    cat.add_peripheral(&s("DEVC"), peripheral("TIM3", Some("TIM"), other), opts);
    assert_eq!(cat.store.files.len(), 3);
    let listing = cat.listing(&s("TIM"), true);
    let report = listing.split("\n\n").nth(1).unwrap();
    assert_eq!(report.lines().count(), 1);
}
