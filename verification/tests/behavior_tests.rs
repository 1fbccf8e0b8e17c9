use ufo::config::UfoCoreConfig;
use ufo::engine::{UfoCore, UfoEvent, UfoEventSink, UfoObjectParams};
use ufo::errors::{UfoAllocateErr, UfoInternalErr};
use ufo::handle::UfoHandle;
use ufo::populate::{ConstPopulate, IndexPopulate, PartialPopulate};

fn small_core(high: usize, low: usize) -> UfoCore<IndexPopulate> {
    let config = UfoCoreConfig {
        writeback_temp_path: "/tmp".to_string(),
        high_watermark: high,
        low_watermark: low,
    };
    UfoCore::new_ufo_core(config).expect("error getting core")
}

fn index_object(
    core: &mut UfoCore<IndexPopulate>,
    element_ct: usize,
    min_load: usize,
    stride: usize,
    read_only: bool,
) -> UfoHandle {
    let params = UfoObjectParams {
        header_size: 0,
        stride,
        min_load_ct: Some(min_load),
        read_only,
        element_ct,
        populate: IndexPopulate {},
        writeback_listener: false,
    };
    core.new_ufo(params).expect("error allocating ufo")
}

#[test]
fn sequential_read_yields_indices() {
    let mut core = small_core(1024 * 1024 * 20, 1024 * 1024 * 2);
    let o = index_object(&mut core, 1000 * 1000, 4096, 4, false);

    for x in 0..1000 * 1000 {
        assert_eq!(x as u64, o.read(&mut core, x).unwrap());
    }
    core.shutdown();
}

#[test]
fn write_then_read_back() {
    let mut core = small_core(1024 * 1024 * 20, 1024 * 1024 * 2);
    let o = index_object(&mut core, 1000 * 1000, 4096, 4, false);

    o.write(&mut core, 0, 14).unwrap();

    for x in 1..1000 * 1000 {
        assert_eq!(x as u64, o.read(&mut core, x).unwrap());
    }
    assert_eq!(14, o.read(&mut core, 0).unwrap());
    core.shutdown();
}

#[test]
fn write_reset_reads_populate() {
    let mut core = small_core(1024 * 1024 * 20, 1024 * 1024 * 2);
    let o = index_object(&mut core, 1000 * 1000, 4096, 4, false);

    o.write(&mut core, 0, 14).unwrap();
    assert_eq!(14, o.read(&mut core, 0).unwrap());

    o.reset(&mut core).unwrap();

    assert_eq!(0, o.read(&mut core, 0).unwrap());
    core.shutdown();
}

#[test]
fn eviction_keeps_values_and_watermarks() {
    // Working set (64 Ki elements of 8 bytes = 512 KiB) far above the high
    // watermark, so sequential touching forces eviction and clean reload.
    let high: usize = 64 * 1024;
    let low: usize = 8 * 1024;
    let mut core = small_core(high, low);
    let ct: usize = 64 * 1024;
    let min_load: usize = 1024;
    let o = index_object(&mut core, ct, min_load, 8, false);

    for x in 0..ct {
        assert_eq!(x as u64, o.read(&mut core, x).unwrap());
        let bound = if high > low + min_load * 8 { high } else { low + min_load * 8 };
        assert!(core.current_resident() <= bound as u128);
    }
    // A second full pass still sees every population value.
    for x in 0..ct {
        assert_eq!(x as u64, o.read(&mut core, x).unwrap());
    }
    core.shutdown();
}

#[test]
fn dirty_eviction_round_trip() {
    let mut core = small_core(64 * 1024, 8 * 1024);
    let ct: usize = 64 * 1024;
    let o = index_object(&mut core, ct, 1024, 8, false);

    for x in 0..ct {
        o.write(&mut core, x, x as u64 + 7).unwrap();
    }
    // The working set exceeds the high watermark, so written chunks were
    // evicted through the spill table and reload from it.
    for x in 0..ct {
        assert_eq!(x as u64 + 7, o.read(&mut core, x).unwrap());
    }
    core.shutdown();
}

#[test]
fn reset_discards_writeback() {
    let mut core = small_core(64 * 1024, 8 * 1024);
    let ct: usize = 64 * 1024;
    let o = index_object(&mut core, ct, 1024, 8, false);

    for x in 0..ct {
        o.write(&mut core, x, 7).unwrap();
    }
    for x in 0..ct {
        assert_eq!(7, o.read(&mut core, x).unwrap());
    }

    o.reset(&mut core).unwrap();

    for x in 0..ct {
        assert_eq!(x as u64, o.read(&mut core, x).unwrap());
    }
    core.shutdown();
}

#[test]
fn double_free_not_found() {
    let mut core = small_core(1024 * 1024 * 20, 1024 * 1024 * 2);
    let mut o = index_object(&mut core, 1024, 64, 8, false);

    assert!(o.free(&mut core).is_ok());
    assert_eq!(Err(UfoInternalErr::UfoNotFound), o.free(&mut core));
    // Freeing the same slot again through the core reports the same error.
    assert!(matches!(core.free_object(0), Err(UfoInternalErr::UfoNotFound)));
}

#[test]
fn operations_after_free_fail() {
    let mut core = small_core(1024 * 1024 * 20, 1024 * 1024 * 2);
    let mut o = index_object(&mut core, 1024, 64, 8, false);

    o.free(&mut core).unwrap();

    assert_eq!(Err(UfoInternalErr::UfoNotFound), o.read(&mut core, 0));
    assert_eq!(Err(UfoInternalErr::UfoNotFound), o.write(&mut core, 0, 1));
    assert_eq!(Err(UfoInternalErr::UfoNotFound), o.reset(&mut core));
    assert!(o.header_ptr().is_err());
    assert!(o.body_ptr().is_err());
}

#[test]
fn allocation_errors() {
    let mut core = small_core(1024 * 1024, 1024);

    let bad_stride = UfoObjectParams {
        header_size: 0,
        stride: 0,
        min_load_ct: Some(16),
        read_only: false,
        element_ct: 10,
        populate: IndexPopulate {},
        writeback_listener: false,
    };
    assert!(matches!(core.new_ufo(bad_stride), Err(UfoAllocateErr::InvalidStride)));

    let bad_min_load = UfoObjectParams {
        header_size: 0,
        stride: 8,
        min_load_ct: Some(0),
        read_only: false,
        element_ct: 10,
        populate: IndexPopulate {},
        writeback_listener: false,
    };
    assert!(matches!(core.new_ufo(bad_min_load), Err(UfoAllocateErr::InvalidMinLoad)));

    let too_large = UfoObjectParams {
        header_size: 0,
        stride: usize::MAX,
        min_load_ct: Some(1),
        read_only: false,
        element_ct: usize::MAX,
        populate: IndexPopulate {},
        writeback_listener: false,
    };
    assert!(matches!(core.new_ufo(too_large), Err(UfoAllocateErr::SizeOverflow)));

    assert_eq!("stride must be positive", UfoAllocateErr::InvalidStride.describe());
    assert_eq!("no ufo found", UfoInternalErr::UfoNotFound.describe());
}

#[test]
fn bad_watermarks_rejected() {
    let config = UfoCoreConfig {
        writeback_temp_path: "/tmp".to_string(),
        high_watermark: 1024,
        low_watermark: 4096,
    };
    let r = UfoCore::<IndexPopulate>::new_ufo_core(config);
    assert!(matches!(r, Err(UfoAllocateErr::InvalidWatermarks)));

    let equal = UfoCoreConfig {
        writeback_temp_path: "/tmp".to_string(),
        high_watermark: 1024,
        low_watermark: 1024,
    };
    assert!(matches!(
        UfoCore::<IndexPopulate>::new_ufo_core(equal),
        Err(UfoAllocateErr::InvalidWatermarks)
    ));
}

#[test]
fn read_only_rejects_writes() {
    let mut core = small_core(1024 * 1024 * 20, 1024 * 1024 * 2);
    let o = index_object(&mut core, 1024, 64, 8, true);

    assert_eq!(5, o.read(&mut core, 5).unwrap());
    assert_eq!(Err(UfoInternalErr::ReadOnlyObject), o.write(&mut core, 5, 99));
    assert_eq!(5, o.read(&mut core, 5).unwrap());
    core.shutdown();
}

#[test]
fn shutdown_is_terminal_and_idempotent() {
    let mut core = small_core(1024 * 1024 * 20, 1024 * 1024 * 2);
    let mut o = index_object(&mut core, 1024, 64, 8, false);

    core.shutdown();
    core.shutdown();

    assert_eq!(Err(UfoInternalErr::CoreShutdown), o.read(&mut core, 0));
    // Cleanup after shutdown reports the benign not-found condition.
    assert_eq!(Err(UfoInternalErr::UfoNotFound), o.free(&mut core));
    assert_eq!(0, core.current_resident());

    let params = UfoObjectParams {
        header_size: 0,
        stride: 8,
        min_load_ct: Some(16),
        read_only: false,
        element_ct: 16,
        populate: IndexPopulate {},
        writeback_listener: false,
    };
    assert!(matches!(core.new_ufo(params), Err(UfoAllocateErr::CoreShutdown)));
}

#[test]
fn const_populate_fills() {
    let config = UfoCoreConfig {
        writeback_temp_path: "/tmp".to_string(),
        high_watermark: 1024 * 1024,
        low_watermark: 1024,
    };
    let mut core = UfoCore::<ConstPopulate>::new_ufo_core(config).unwrap();
    let params = UfoObjectParams {
        header_size: 0,
        stride: 8,
        min_load_ct: Some(16),
        read_only: false,
        element_ct: 256,
        populate: ConstPopulate { fill: 42 },
        writeback_listener: false,
    };
    let o = core.new_ufo(params).unwrap();
    for x in 0..256 {
        assert_eq!(42, o.read(&mut core, x).unwrap());
    }
    core.shutdown();
}

#[test]
fn populate_failure_is_surfaced() {
    let config = UfoCoreConfig {
        writeback_temp_path: "/tmp".to_string(),
        high_watermark: 1024 * 1024,
        low_watermark: 1024,
    };
    let mut core = UfoCore::<PartialPopulate>::new_ufo_core(config).unwrap();
    let params = UfoObjectParams {
        header_size: 0,
        stride: 8,
        min_load_ct: Some(64),
        read_only: false,
        element_ct: 256,
        // Indices from 100 on cannot be populated: any fault on a chunk
        // containing one of them fails.
        populate: PartialPopulate { cutoff: 100 },
        writeback_listener: false,
    };
    let o = core.new_ufo(params).unwrap();

    // The first chunk, elements 0..64, populates fine.
    assert_eq!(10, o.read(&mut core, 10).unwrap());
    // The second chunk, 64..128, contains failing indices; the fault is
    // fatal to this access, not masked as zeroed memory.
    assert_eq!(Err(UfoInternalErr::PopulateFailure), o.read(&mut core, 70));
    assert_eq!(Err(UfoInternalErr::PopulateFailure), o.write(&mut core, 70, 1));
    // Only that access fails: the healthy chunk is still readable and the
    // engine still works.
    assert_eq!(10, o.read(&mut core, 10).unwrap());
    assert_eq!(63, o.read(&mut core, 63).unwrap());
    core.shutdown();
}

#[test]
fn pointer_accessors_reflect_layout() {
    let mut core = small_core(1024 * 1024 * 20, 1024 * 1024 * 2);
    let params = UfoObjectParams {
        header_size: 64,
        stride: 8,
        min_load_ct: Some(16),
        read_only: false,
        element_ct: 256,
        populate: IndexPopulate {},
        writeback_listener: false,
    };
    let o = core.new_ufo(params).unwrap();
    let h = o.header_ptr().unwrap();
    let b = o.body_ptr().unwrap();
    assert_eq!(h + 64, b);
    assert_eq!(0, o.read_header(63).unwrap());
    core.shutdown();
}

#[test]
fn writeback_listener_reports_spills() {
    let mut core = small_core(8 * 1024, 1024);
    core.new_event_callback(Some(UfoEventSink::new())).unwrap();
    let params = UfoObjectParams {
        header_size: 0,
        stride: 8,
        min_load_ct: Some(128),
        read_only: false,
        element_ct: 4096,
        populate: IndexPopulate {},
        writeback_listener: true,
    };
    let o = core.new_ufo(params).unwrap();
    // Writing the whole body (32 KiB) far exceeds the 8 KiB high watermark,
    // so dirty chunks are persisted, and each persist is reported.
    for x in 0..4096 {
        o.write(&mut core, x, 1).unwrap();
    }
    let sink = core.take_event_sink().expect("sink registered");
    assert!(sink
        .events
        .iter()
        .any(|e| matches!(e, UfoEvent::WritebackEvent { ufo_id: 0, chunk: _ })));
    core.shutdown();
}

#[test]
fn event_sink_observes_lifecycle() {
    let mut core = small_core(1024 * 1024 * 20, 1024 * 1024 * 2);
    core.new_event_callback(Some(UfoEventSink::new())).unwrap();

    let o = index_object(&mut core, 1024, 64, 8, false);
    assert_eq!(0, o.read(&mut core, 0).unwrap());
    o.reset(&mut core).unwrap();

    let sink = core.take_event_sink().expect("sink registered");
    assert!(sink.events.contains(&UfoEvent::AllocateEvent { ufo_id: 0 }));
    assert!(sink.events.contains(&UfoEvent::PopulateEvent { ufo_id: 0, chunk: 0 }));
    assert!(sink.events.contains(&UfoEvent::ResetEvent { ufo_id: 0 }));
    core.shutdown();
}
