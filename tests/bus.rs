use mintsim::bus::{Bus, BusCore, BusError, ConnectError, RefBus};
use mintsim::signal::{SigDef, SigTrait, Signal, ValueStore};
use nalgebra::DMatrix;

fn defs(names: &[&str]) -> Vec<SigDef> {
    names.iter().map(|n| SigDef::new(n, "A")).collect()
}

fn bus_of(store: &mut ValueStore<f64>, names: &[&str]) -> Bus {
    Bus::try_from_sigdefs(store, &defs(names), 0.0).unwrap()
}

fn refbus_of(names: &[&str]) -> RefBus {
    RefBus::try_from_sigdefs(&defs(names)).unwrap()
}

#[test]
fn buscore_pushtest() {
    let mut store: ValueStore<f64> = ValueStore::new();
    let mut a: Bus = BusCore::new();

    a.push(Signal::new(&mut store, 1.0, "test1", "A")).unwrap();
    a.push(Signal::new(&mut store, 2.0, "test2", "A")).unwrap();

    assert_eq!(a.get_by_name("test1").unwrap().val(&store), 1.0);
    assert_eq!(a.get_by_name("test2").unwrap().val(&store), 2.0);
}

#[test]
#[should_panic]
fn buscore_pushtest2() {
    let mut store: ValueStore<f64> = ValueStore::new();
    let mut a: Bus = BusCore::new();

    a.push(Signal::new(&mut store, 1.0, "test1", "A")).unwrap();
    a.push(Signal::new(&mut store, 2.0, "test1", "A")).unwrap();
}

#[test]
fn buscore_setvalue() {
    let mut store: ValueStore<f64> = ValueStore::new();
    let mut a: Bus = BusCore::new();

    a.push(Signal::new(&mut store, 1.0, "test1", "A")).unwrap();
    a.push(Signal::new(&mut store, 2.0, "test2", "A")).unwrap();

    assert_eq!(a.get_by_name("test1").unwrap().val(&store), 1.0);

    a.get_by_name_mut("test1").unwrap().set_val(&mut store, 2.0);

    assert_eq!(a.get_by_name("test1").unwrap().val(&store), 2.0);
}

#[test]
#[should_panic]
fn buscore_setvalue2() {
    let mut store: ValueStore<f64> = ValueStore::new();
    let mut a: Bus = BusCore::new();

    a.push(Signal::new(&mut store, 1.0, "test1", "A")).unwrap();
    a.push(Signal::new(&mut store, 2.0, "test2", "A")).unwrap();

    a.get_by_name_mut("test3").unwrap().set_val(&mut store, 2.0);
}

#[test]
fn buscore_mk_vec() {
    let mut store: ValueStore<f64> = ValueStore::new();
    let mut a: Bus = BusCore::new();

    a.push(Signal::new(&mut store, 1.0, "test1", "A")).unwrap();
    a.push(Signal::new(&mut store, 2.0, "test2", "A")).unwrap();
    a.push(Signal::new(&mut store, 3.0, "test3", "A")).unwrap();

    assert_eq!(a.to_vec_f64(&store), vec![1.0, 2.0, 3.0]);
}

#[test]
fn buscore_get_sigdef() {
    let mut store: ValueStore<f64> = ValueStore::new();
    let mut a: Bus = BusCore::new();

    a.push(Signal::new(&mut store, 1.0, "test1", "A")).unwrap();
    a.push(Signal::new(&mut store, 2.0, "test2", "A")).unwrap();

    let sigdef = a.get_sigdef();

    assert!(sigdef == vec![SigDef::new("test1", "A"), SigDef::new("test2", "A")]);
}

#[test]
fn buscore_iter() {
    let mut store: ValueStore<f64> = ValueStore::new();
    let mut a: Bus = BusCore::new();

    a.push(Signal::new(&mut store, 1.0, "test1", "A")).unwrap();
    a.push(Signal::new(&mut store, 2.0, "test2", "A")).unwrap();
    a.push(Signal::new(&mut store, 3.0, "test3", "A")).unwrap();

    let v = a.to_vec_f64(&store).iter().map(|x| x * 2.0).collect::<Vec<f64>>();

    assert_eq!(v, vec![2.0, 4.0, 6.0]);
}

#[test]
fn buscore_iter_mut() {
    let mut store: ValueStore<f64> = ValueStore::new();
    let mut a: Bus = BusCore::new();

    a.push(Signal::new(&mut store, 1.0, "test1", "A")).unwrap();
    a.push(Signal::new(&mut store, 2.0, "test2", "A")).unwrap();
    a.push(Signal::new(&mut store, 3.0, "test3", "A")).unwrap();

    a.set_all(&mut store, 10.0);

    assert_eq!(a.to_vec_f64(&store), vec![10.0, 10.0, 10.0]);
}

#[test]
fn buscore_index() {
    let mut store: ValueStore<f64> = ValueStore::new();
    let mut a: Bus = BusCore::new();

    a.push(Signal::new(&mut store, 1.0, "test1", "A")).unwrap();
    a.push(Signal::new(&mut store, 2.0, "test2", "A")).unwrap();
    a.push(Signal::new(&mut store, 3.0, "test3", "A")).unwrap();

    assert_eq!(a.get(0).name(), "test1");
    assert_eq!(a.get(1).name(), "test2");
    assert_eq!(a.get(2).name(), "test3");
}

#[test]
fn buscore_index_mut() {
    let mut store: ValueStore<f64> = ValueStore::new();
    let mut a: Bus = BusCore::new();

    a.push(Signal::new(&mut store, 1.0, "test1", "A")).unwrap();
    a.push(Signal::new(&mut store, 2.0, "test2", "A")).unwrap();
    a.push(Signal::new(&mut store, 3.0, "test3", "A")).unwrap();

    a.get(0).set_val(&mut store, 2.0);
    a.get(1).set_val(&mut store, 3.0);
    a.get(2).set_val(&mut store, 4.0);

    assert_eq!(a.get_by_name("test1").unwrap().val(&store), 2.0);
    assert_eq!(a.get_by_name("test2").unwrap().val(&store), 3.0);
    assert_eq!(a.get_by_name("test3").unwrap().val(&store), 4.0);
}

#[test]
fn bus_tryfrom() {
    let mut store: ValueStore<f64> = ValueStore::new();
    let a = bus_of(&mut store, &["test1", "test2", "test3"]);

    assert_eq!(a.get(0).name(), "test1");
    assert_eq!(a.get(1).name(), "test2");
    assert_eq!(a.get(2).name(), "test3");
}

#[test]
fn refbus_tryfrom() {
    let a = refbus_of(&["test1", "test2", "test3"]);

    assert_eq!(a.get(0).name(), "test1");
    assert_eq!(a.get(1).name(), "test2");
    assert_eq!(a.get(2).name(), "test3");
}

#[test]
fn refbus_connect() {
    let mut store: ValueStore<f64> = ValueStore::new();
    let a = bus_of(&mut store, &["bus1", "bus2", "bus3"]);
    a.import_values(&mut store, &vec![1.0, 2.0, 3.0]);

    let b = bus_of(&mut store, &["bus4", "bus5", "bus6"]);
    b.import_values(&mut store, &vec![11.0, 12.0, 13.0]);

    let mut c = refbus_of(&["refbus1", "refbus2", "refbus3"]);

    c.connect_to(&a, &["bus1", "bus2"], &["refbus1", "refbus2"]).unwrap();
    c.connect_to(&b, &["bus6"], &["refbus3"]).unwrap();

    assert_eq!(c.get(0).val(&store), a.get(0).val(&store));
    assert_eq!(c.get(1).val(&store), a.get(1).val(&store));
    assert_eq!(c.get(2).val(&store), b.get(2).val(&store));

    assert_eq!(
        c.get_by_name("refbus1").unwrap().val(&store),
        a.get_by_name("bus1").unwrap().val(&store)
    );
    assert_eq!(
        c.get_by_name("refbus2").unwrap().val(&store),
        a.get_by_name("bus2").unwrap().val(&store)
    );
    assert_eq!(
        c.get_by_name("refbus3").unwrap().val(&store),
        b.get_by_name("bus6").unwrap().val(&store)
    );
}

#[test]
fn refbus_connect2() {
    let mut store: ValueStore<f64> = ValueStore::new();
    let a = bus_of(&mut store, &["bus1", "bus2", "bus3"]);
    a.import_values(&mut store, &vec![1.0, 2.0, 3.0]);

    let mut b = refbus_of(&["refbus1", "refbus2", "refbus3"]);
    b.connect_to(&a, &["bus3", "bus2", "bus1"], &["refbus1", "refbus2", "refbus3"]).unwrap();

    assert_eq!(b.get_by_name("refbus1").unwrap().val(&store), a.get_by_name("bus3").unwrap().val(&store));
    assert_eq!(b.get_by_name("refbus2").unwrap().val(&store), a.get_by_name("bus2").unwrap().val(&store));
    assert_eq!(b.get_by_name("refbus3").unwrap().val(&store), a.get_by_name("bus1").unwrap().val(&store));

    let mut c = refbus_of(&["refbus1", "refbus2", "refbus3"]);
    c.connect_to(&b, &["refbus3", "refbus2", "refbus1"], &["refbus1", "refbus2", "refbus3"]).unwrap();

    assert_eq!(c.get_by_name("refbus1").unwrap().val(&store), b.get_by_name("refbus3").unwrap().val(&store));
    assert_eq!(c.get_by_name("refbus2").unwrap().val(&store), b.get_by_name("refbus2").unwrap().val(&store));
    assert_eq!(c.get_by_name("refbus3").unwrap().val(&store), b.get_by_name("refbus1").unwrap().val(&store));
}

#[test]
#[should_panic]
fn refbus_connect_panic() {
    let mut store: ValueStore<f64> = ValueStore::new();
    let a = bus_of(&mut store, &["bus1", "bus2", "bus3"]);
    let b = bus_of(&mut store, &["bus4", "bus5", "bus6"]);
    let mut c = refbus_of(&["refbus1", "refbus2", "refbus3"]);

    c.connect_to(&a, &["bus1", "bus2"], &["refbus1", "refbus2"]).unwrap();
    c.connect_to(&b, &["bus4"], &["refbus1"]).unwrap();
}

#[test]
#[should_panic]
fn refbus_connect_notfound_panic() {
    let mut store: ValueStore<f64> = ValueStore::new();
    let a = bus_of(&mut store, &["bus1", "bus2", "bus3"]);
    let mut c = refbus_of(&["refbus1", "refbus2", "refbus3"]);

    c.connect_to(&a, &["bus5", "bus1"], &["refbus1", "refbus4"]).unwrap();
}

#[test]
fn refbus_disconnect_all() {
    let mut store: ValueStore<f64> = ValueStore::new();
    let a = bus_of(&mut store, &["bus1", "bus2", "bus3"]);
    let mut c = refbus_of(&["refbus1", "refbus2", "refbus3"]);
    a.import_values(&mut store, &vec![1.0, 2.0, 3.0]);

    c.connect_to(&a, &["bus1", "bus2", "bus3"], &["refbus1", "refbus2", "refbus3"]).unwrap();
    assert_eq!(a.get(0).val(&store), c.get(0).val(&store));
    assert_eq!(a.get(1).val(&store), c.get(1).val(&store));
    assert_eq!(a.get(2).val(&store), c.get(2).val(&store));

    c.disconnect_all();

    c.connect_to(&a, &["bus3", "bus2", "bus1"], &["refbus1", "refbus2", "refbus3"]).unwrap();
    assert_eq!(a.get(2).val(&store), c.get(0).val(&store));
    assert_eq!(a.get(1).val(&store), c.get(1).val(&store));
    assert_eq!(a.get(0).val(&store), c.get(2).val(&store));
}

#[test]
fn refbus_disconnect() {
    let mut store: ValueStore<f64> = ValueStore::new();
    let a = bus_of(&mut store, &["bus1", "bus2", "bus3"]);
    let mut c = refbus_of(&["refbus1", "refbus2", "refbus3"]);
    a.import_values(&mut store, &vec![1.0, 2.0, 3.0]);

    c.connect_to(&a, &["bus1", "bus2", "bus3"], &["refbus1", "refbus2", "refbus3"]).unwrap();
    assert_eq!(a.get(0).val(&store), c.get(0).val(&store));
    assert_eq!(a.get(1).val(&store), c.get(1).val(&store));
    assert_eq!(a.get(2).val(&store), c.get(2).val(&store));

    c.disconnect("refbus1").unwrap();
    c.disconnect("refbus3").unwrap();

    c.connect_to(&a, &["bus1", "bus3"], &["refbus3", "refbus1"]).unwrap();
    assert_eq!(a.get(2).val(&store), c.get(0).val(&store));
    assert_eq!(a.get(1).val(&store), c.get(1).val(&store));
    assert_eq!(a.get(0).val(&store), c.get(2).val(&store));
}

#[test]
#[should_panic]
fn refbus_disconnect_panic() {
    let mut store: ValueStore<f64> = ValueStore::new();
    let a = bus_of(&mut store, &["bus1", "bus2", "bus3"]);
    let mut c = refbus_of(&["refbus1", "refbus2", "refbus3"]);
    a.import_values(&mut store, &vec![1.0, 2.0, 3.0]);

    c.connect_to(&a, &["bus1", "bus2", "bus3"], &["refbus1", "refbus2", "refbus3"]).unwrap();
    assert_eq!(a.get(0).val(&store), c.get(0).val(&store));
    assert_eq!(a.get(1).val(&store), c.get(1).val(&store));
    assert_eq!(a.get(2).val(&store), c.get(2).val(&store));

    c.disconnect("refbus4").unwrap();
    c.disconnect("refbus3").unwrap();

    c.connect_to(&a, &["bus1", "bus3"], &["refbus3", "refbus1"]).unwrap();
    assert_eq!(a.get(2).val(&store), c.get(0).val(&store));
    assert_eq!(a.get(1).val(&store), c.get(1).val(&store));
    assert_eq!(a.get(0).val(&store), c.get(2).val(&store));
}

#[test]
fn import_matrix() {
    let m = DMatrix::from_vec(3, 1, vec![1.0, 2.0, 3.0]);
    let mut store: ValueStore<f64> = ValueStore::new();
    let a = bus_of(&mut store, &["bus1", "bus2", "bus3"]);

    a.import_values(&mut store, &m.iter().cloned().collect::<Vec<f64>>());
    assert_eq!(a.get(0).val(&store), 1.0);
    assert_eq!(a.get(1).val(&store), 2.0);
    assert_eq!(a.get(2).val(&store), 3.0);
}

#[test]
fn export_matrix() {
    let mut store: ValueStore<f64> = ValueStore::new();
    let a = bus_of(&mut store, &["bus1", "bus2", "bus3"]);
    a.import_values(&mut store, &vec![1.0, 2.0, 3.0]);

    let mut b = refbus_of(&["refbus1", "refbus2", "refbus3"]);
    b.connect_to(&a, &["bus1", "bus2", "bus3"], &["refbus1", "refbus2", "refbus3"]).unwrap();

    let v = b.to_vec_f64(&store);
    let mat = DMatrix::from_vec(b.len(), 1, v);

    assert_eq!(mat[0], 1.0);
    assert_eq!(mat[1], 2.0);
    assert_eq!(mat[2], 3.0);
}

#[test]
fn push_then_get_returns_pushed_entry() {
    let mut store: ValueStore<f64> = ValueStore::new();
    let mut a: Bus = BusCore::new();
    a.push(Signal::new(&mut store, 7.0, "x", "m")).unwrap();
    a.push(Signal::new(&mut store, 8.0, "y", "s")).unwrap();
    let y = a.get_by_name("y").unwrap();
    assert_eq!(y.name(), "y");
    assert_eq!(y.unit(), "s");
    assert_eq!(y.val(&store), 8.0);
    assert_eq!(a.index_of("y"), Some(1));
    assert_eq!(a.index_of("z"), None);
    assert!(a.get_by_name("z").is_none());
}

#[test]
fn push_duplicate_leaves_bus_unchanged() {
    let mut store: ValueStore<f64> = ValueStore::new();
    let mut a: Bus = BusCore::new();
    a.push(Signal::new(&mut store, 1.0, "x", "m")).unwrap();
    let r = a.push(Signal::new(&mut store, 2.0, "x", "kg"));
    match r {
        Err(BusError::DuplicateName(n)) => assert_eq!(n, "x"),
        _ => panic!("duplicate accepted"),
    }
    assert_eq!(a.len(), 1);
    assert_eq!(a.get(0).unit(), "m");
    assert_eq!(a.get_by_name("x").unwrap().val(&store), 1.0);
}

#[test]
fn empty_bus() {
    let a: RefBus = BusCore::new();
    assert_eq!(a.len(), 0);
    assert!(a.get_by_name("x").is_none());
    assert_eq!(a.get_sigdef().len(), 0);
}

#[test]
fn tryfrom_duplicate_names_refused() {
    let mut store: ValueStore<f64> = ValueStore::new();
    let r = Bus::try_from_sigdefs(&mut store, &defs(&["a", "b", "a"]), 0.0);
    assert!(matches!(r, Err(BusError::DuplicateName(_))));
    assert_eq!(store.len(), 0);
    assert!(RefBus::try_from_sigdefs(&defs(&["a", "a"])).is_err());
}

#[test]
fn tryfrom_allocates_initialised_cells() {
    let mut store: ValueStore<f64> = ValueStore::new();
    store.add_cell(9.0);
    let a = Bus::try_from_sigdefs(&mut store, &defs(&["p", "q"]), 0.5).unwrap();
    assert_eq!(store.len(), 3);
    assert_eq!(a.get(0).cell_index(), 1);
    assert_eq!(a.get(1).cell_index(), 2);
    assert_eq!(a.to_vec_f64(&store), vec![0.5, 0.5]);
    assert_eq!(store.get(0), 9.0);
}

#[test]
fn connect_length_mismatch_fails_first() {
    let mut store: ValueStore<f64> = ValueStore::new();
    let a = bus_of(&mut store, &["bus1"]);
    let mut c = refbus_of(&["refbus1"]);
    let r = c.connect_to(&a, &["nosuch", "bus1"], &["refbus1"]);
    assert!(matches!(r, Err(ConnectError::LengthMismatch)));
    assert!(!c.get(0).is_connected());
}

#[test]
fn connect_reports_every_unresolved_name_and_binds_nothing() {
    let mut store: ValueStore<f64> = ValueStore::new();
    let a = bus_of(&mut store, &["bus1", "bus2", "bus3"]);
    let mut c = refbus_of(&["refbus1", "refbus2", "refbus3"]);
    c.connect_to(&a, &["bus3"], &["refbus3"]).unwrap();

    let r = c.connect_to(
        &a,
        &["bus1", "bus5", "bus2", "bus9", "bus1"],
        &["refbus1", "refbus2", "refbus3", "refbus4", "refbus1"],
    );
    match r {
        Err(ConnectError::Unresolved { src_missing, dst_missing, dst_bound }) => {
            assert_eq!(src_missing, vec!["bus5".to_string(), "bus9".to_string()]);
            assert_eq!(dst_missing, vec!["refbus4".to_string()]);
            assert_eq!(dst_bound, vec!["refbus3".to_string(), "refbus1".to_string()]);
        }
        _ => panic!("expected an unresolved-names error"),
    }
    // nothing of the failed call is kept
    assert!(!c.get(0).is_connected());
    assert!(!c.get(1).is_connected());
    assert_eq!(c.get(2).cell(), a.get(2).cell());
}

#[test]
fn reconnect_bound_slot_keeps_binding() {
    let mut store: ValueStore<f64> = ValueStore::new();
    let a = bus_of(&mut store, &["bus1", "bus2"]);
    a.import_values(&mut store, &vec![1.0, 2.0]);
    let mut c = refbus_of(&["refbus1", "refbus2"]);
    c.connect_to(&a, &["bus1"], &["refbus1"]).unwrap();

    let r = c.connect_to(&a, &["bus2", "bus2"], &["refbus2", "refbus1"]);
    assert!(r.is_err());
    assert_eq!(c.get(0).val(&store), 1.0);
    assert!(!c.get(1).is_connected());
}

#[test]
fn connect_from_unbound_reference_refused() {
    let mut store: ValueStore<f64> = ValueStore::new();
    let b = refbus_of(&["r1"]);
    let mut c = refbus_of(&["r2"]);
    let r = c.connect_to(&b, &["r1"], &["r2"]);
    match r {
        Err(ConnectError::Unresolved { src_missing, dst_missing, dst_bound }) => {
            assert_eq!(src_missing, vec!["r1".to_string()]);
            assert!(dst_missing.is_empty());
            assert!(dst_bound.is_empty());
        }
        _ => panic!("expected an unresolved-names error"),
    }
    assert!(!c.is_readable(store.len()));
}

#[test]
fn disconnect_unknown_name_is_an_error() {
    let mut c = refbus_of(&["refbus1"]);
    match c.disconnect("nosuch") {
        Err(BusError::NotFound(n)) => assert_eq!(n, "nosuch"),
        _ => panic!("expected not found"),
    }
}

#[test]
fn copy_values_between_buses() {
    let mut store: ValueStore<f64> = ValueStore::new();
    let src = bus_of(&mut store, &["s1", "s2"]);
    src.import_values(&mut store, &vec![4.0, 5.0]);
    let mut view = refbus_of(&["v1", "v2"]);
    view.connect_to(&src, &["s2", "s1"], &["v1", "v2"]).unwrap();
    let dst = bus_of(&mut store, &["d1", "d2"]);
    dst.copy_val_from_bus(&mut store, &view);
    assert_eq!(dst.to_vec_f64(&store), vec![5.0, 4.0]);
    assert_eq!(src.to_vec_f64(&store), vec![4.0, 5.0]);
}

#[test]
fn readable_requires_every_slot_bound() {
    let mut store: ValueStore<f64> = ValueStore::new();
    let a = bus_of(&mut store, &["bus1", "bus2"]);
    let mut c = refbus_of(&["r1", "r2"]);
    assert!(a.is_readable(store.len()));
    assert!(!a.is_readable(1));
    c.connect_to(&a, &["bus1"], &["r1"]).unwrap();
    assert!(!c.is_readable(store.len()));
    c.connect_to(&a, &["bus2"], &["r2"]).unwrap();
    assert!(c.is_readable(store.len()));
}

#[test]
fn get_by_name_mut_changes_slot_in_place() {
    let mut store: ValueStore<f64> = ValueStore::new();
    let a = bus_of(&mut store, &["bus1"]);
    a.import_values(&mut store, &vec![6.0]);
    let mut c = refbus_of(&["r1", "r2"]);
    c.get_by_name_mut("r2").unwrap().connect_to(a.get(0)).unwrap();
    assert!(!c.get(0).is_connected());
    assert_eq!(c.get(1).val(&store), 6.0);
    c.get_by_name_mut("r2").unwrap().disconnect();
    assert!(!c.get(1).is_connected());
    assert!(c.get_by_name_mut("r3").is_none());
}

#[test]
fn connect_with_no_pairs_changes_nothing() {
    let mut store: ValueStore<f64> = ValueStore::new();
    let a = bus_of(&mut store, &["bus1"]);
    let mut c = refbus_of(&["r1"]);
    assert!(c.connect_to(&a, &[], &[]).is_ok());
    assert!(!c.get(0).is_connected());
}

#[test]
fn connect_same_slot_twice_in_one_call_refused() {
    let mut store: ValueStore<f64> = ValueStore::new();
    let a = bus_of(&mut store, &["bus1", "bus2"]);
    let mut c = refbus_of(&["r1"]);
    match c.connect_to(&a, &["bus1", "bus2"], &["r1", "r1"]) {
        Err(ConnectError::Unresolved { src_missing, dst_missing, dst_bound }) => {
            assert!(src_missing.is_empty());
            assert!(dst_missing.is_empty());
            assert_eq!(dst_bound, vec!["r1".to_string()]);
        }
        _ => panic!("expected an unresolved-names error"),
    }
    assert!(!c.get(0).is_connected());
}
