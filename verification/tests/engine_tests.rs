use ufo::config::UfoCoreConfig;
use ufo::engine::{UfoCore, UfoObjectParams};
use ufo::handle::UfoHandle;
use ufo::populate::IndexPopulate;

fn basic_test_object(
    header_size: usize,
    body_size: usize,
    min_load: usize,
    read_only: bool,
    stride: usize,
) -> (UfoCore<IndexPopulate>, UfoHandle) {
    let config = UfoCoreConfig {
        writeback_temp_path: "/tmp".to_string(),
        high_watermark: 1024 * 1024 * 20,
        low_watermark: 1024 * 1024 * 2,
    };
    let mut core = UfoCore::new_ufo_core(config).expect("error getting core");

    let ufo_params = UfoObjectParams {
        header_size,
        stride,
        min_load_ct: Some(min_load),
        read_only,
        element_ct: body_size,
        populate: IndexPopulate {},
        writeback_listener: false,
    };

    let o = core.new_ufo(ufo_params).expect("error allocating ufo");

    (core, o)
}

#[test]
fn core_starts() {
    let config = UfoCoreConfig {
        writeback_temp_path: "/tmp".to_string(),
        high_watermark: 1024 * 1024 * 1024,
        low_watermark: 512 * 1024 * 1024,
    };
    let core = UfoCore::<IndexPopulate>::new_ufo_core(config).expect("error getting core");

    std::mem::drop(core);
}

#[test]
fn it_works() {
    let (mut core, o) = basic_test_object(0, 1000 * 1000, 4096, false, 4);

    for x in 0..1000 * 1000 {
        assert_eq!(x as u32, o.read(&mut core, x).unwrap() as u32);
    }

    core.shutdown();
    std::mem::drop(core);
}

#[test]
fn free_ufo() {
    let (mut core, mut o) = basic_test_object(0, 1000 * 1000, 4096, false, 4);

    o.free(&mut core).unwrap();

    core.shutdown();
    std::mem::drop(core);
}

#[test]
fn with_header() {
    let (mut core, o) = basic_test_object(1, 1000 * 1000, 4096, false, 4);

    assert_eq!(0, o.read_header(0).unwrap());

    for x in 0..1000 * 1000 {
        assert_eq!(x as u32, o.read(&mut core, x).unwrap() as u32);
    }

    core.shutdown();
    std::mem::drop(core);
}

#[test]
fn large_load() {
    let ct = 1000 * 1000 * 50;
    let (mut core, o) = basic_test_object(0, ct, 1024 * 1024, false, 8);

    for x in 0..ct {
        let v = o.read(&mut core, x).unwrap();
        if x as u64 != v {
            panic!("{} != {}", x, v);
        }
    }

    core.shutdown();
    std::mem::drop(core);
}

#[test]
fn large_write() {
    let ct = 1000 * 1000 * 50;
    let (mut core, o) = basic_test_object(0, ct, 1024 * 1024, false, 8);

    o.write(&mut core, 0, 14).unwrap();

    for x in 1..ct {
        let v = o.read(&mut core, x).unwrap();
        if x as u64 != v {
            panic!("{} != {}", x, v);
        }
    }

    assert_eq!(14, o.read(&mut core, 0).unwrap());

    core.shutdown();
    std::mem::drop(core);
}

#[test]
fn reset_ufo() {
    let ct = 1024 * 1024 * 50;
    let (mut core, o) = basic_test_object(0, ct, 1024 * 1024, false, 8);

    for x in 0..ct {
        let v = o.read(&mut core, x).unwrap();
        if x as u64 != v {
            panic!("  {} != {}", x, v);
        }
    }

    for x in 0..ct {
        o.write(&mut core, x, 7).unwrap();
    }

    for x in 0..ct {
        let v = o.read(&mut core, x).unwrap();
        if 7 != v {
            panic!("  7 != {} @ {}", v, x);
        }
    }

    o.reset(&mut core).unwrap();

    for x in 0..ct {
        let v = o.read(&mut core, x).unwrap();
        if x as u64 != v {
            panic!("p {} != {}", x, v);
        }
    }

    core.shutdown();
    std::mem::drop(core);
}

#[test]
fn reverse_iterate() {
    let ct = 1000 * 1000;
    let (mut core, o) = basic_test_object(1, ct, 4096, false, 4);

    assert_eq!(0, o.read_header(0).unwrap());

    for x in 1..=ct {
        let y = ct - x;
        assert_eq!(y as u32, o.read(&mut core, y).unwrap() as u32);
    }

    core.shutdown();
    std::mem::drop(core);
}
