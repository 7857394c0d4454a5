use scviz::comm::Bus;
use scviz::comm::FFT_BUF_SIZE;
use scviz::comm::Jack;
use scviz::comm::TimingDiagnostics;
use scviz::comm::Update;
use scviz::comm::stop_signal;
use scviz::portbuf::ActivateError;
use scviz::portbuf::Batch;
use scviz::portbuf::BlockSize;
use scviz::portbuf::PortBuf;
use scviz::portbuf::PortBufProcessConfig;
use scviz::portbuf::Quit;
use scviz::portbuf::Step;
use scviz::portbuf::TriBuf;
use scviz::portbuf::Worker;
use scviz::portbuf::aggregate;
use scviz::portbuf::n_samples;
use scviz::portbuf::port_is_named;
use scviz::portbuf::report_for;
use scviz::queue::sample_queue;
use scviz::sample::Sample;

fn s(x: f32) -> Sample {
    Sample::from_bits(x.to_bits())
}

fn f(x: Sample) -> f32 {
    f32::from_bits(x.to_bits())
}

fn floats(v: &[Sample]) -> Vec<f32> {
    v.iter().map(|x| f(*x)).collect()
}

fn mean(block: &[Sample]) -> Sample {
    let sum: f32 = block.iter().map(|x| f(*x)).sum();
    s(sum / block.len() as f32)
}

fn bus() -> Bus {
    Bus::new(egui::Context::default())
}

#[test]
fn port_buf() {
    // A queue of capacity 5 and blocks of 2: of 5 values written at once
    // the worker takes 4 and leaves the 5th.
    let mut pbuf: PortBuf<10> = PortBuf::new(0, "name".to_owned(), true, 48_000);
    let mut buf: TriBuf<10> = TriBuf::new();

    let (mut prod, cons) = sample_queue(5);
    let process_config = PortBufProcessConfig { rb: cons, agg_bin_size: 2, bus: bus() };

    let mut worker = pbuf.activate(process_config).expect("pbuf to not throw");

    let mut test_data = vec![0.0f32; 5];
    for i in 1..test_data.len() {
        test_data[i] = (i * 2) as f32;
    }
    let block: Vec<Sample> = test_data.iter().map(|x| s(*x)).collect();
    assert_eq!(prod.push_block(&block), Ok(()));

    match worker.step(&mean, true) {
        Step::Staged(batch) => {
            buf.commit(&batch);
            worker.end_cycle(true);
        }
        _ => panic!("a block was queued"),
    }
    // The one value that is left is less than a block.
    assert!(matches!(worker.step(&mean, true), Step::Idle));

    assert_eq!(pbuf.quit(), Quit::Requested);
    assert!(matches!(worker.step(&mean, true), Step::Exit));

    assert!(buf.agg.len() == 2);
    let aggs = buf.agg.last_n(2);
    assert!(f(aggs[0]) == 1.0);
    assert!(f(aggs[1]) == 5.0);
    assert!(buf.raw.len() == 4);
    assert_eq!(floats(&buf.raw.last_n(4)), vec![0.0, 2.0, 4.0, 6.0]);
    assert!(prod.len() == 1);
    assert_eq!(worker.pending(), 1);
    assert_eq!(pbuf.curr_idx(&buf), (2, 4));
}

#[test]
fn n_samples_is_the_largest_multiple_that_fits() {
    assert_eq!(n_samples(5, 2), 4);
    assert_eq!(n_samples(4, 2), 4);
    assert_eq!(n_samples(1, 2), 0);
    assert_eq!(n_samples(0, 7), 0);
    assert_eq!(n_samples(1023, 1024), 0);
    assert_eq!(n_samples(1024, 1024), 1024);
    assert_eq!(n_samples(5000, 1024), 4096);
    assert_eq!(n_samples(FFT_BUF_SIZE, 1024), FFT_BUF_SIZE);
    assert_eq!(n_samples(FFT_BUF_SIZE + 5000, 1024), FFT_BUF_SIZE);
    assert_eq!(n_samples(usize::MAX, 1), FFT_BUF_SIZE);
    assert_eq!(n_samples(100_000, 3), 16_383);
}

#[test]
fn aggregate_gives_one_mean_per_complete_block() {
    let raw: Vec<Sample> = [0.0f32, 2.0, 4.0, 6.0, 8.0].iter().map(|x| s(*x)).collect();
    assert_eq!(floats(&aggregate(&raw, 2, &mean)), vec![1.0, 5.0]);
    assert_eq!(floats(&aggregate(&raw, 5, &mean)), vec![4.0]);
    assert_eq!(floats(&aggregate(&raw, 1, &mean)), vec![0.0, 2.0, 4.0, 6.0, 8.0]);
    assert!(aggregate(&raw, 6, &mean).is_empty());
    assert!(aggregate(&Vec::new(), 2, &mean).is_empty());
}

#[test]
fn aggregate_hands_each_block_to_the_aggregator_in_order() {
    let raw: Vec<Sample> = (0..6).map(|i| s(i as f32)).collect();
    let first = |block: &[Sample]| block[0];
    assert_eq!(floats(&aggregate(&raw, 3, &first)), vec![0.0, 3.0]);
    let last = |block: &[Sample]| block[block.len() - 1];
    assert_eq!(floats(&aggregate(&raw, 3, &last)), vec![2.0, 5.0]);
}

#[test]
fn block_size_must_divide_the_staging_capacity() {
    assert!(BlockSize::new(0).is_none());
    assert!(BlockSize::new(3).is_none());
    assert!(BlockSize::new(FFT_BUF_SIZE + 1).is_none());
    assert_eq!(BlockSize::new(1024).map(|b| b.get()), Some(1024));
    assert_eq!(BlockSize::new(FFT_BUF_SIZE).map(|b| b.get()), Some(FFT_BUF_SIZE));
    assert_eq!(BlockSize::new(1).map(|b| b.get()), Some(1));
}

#[test]
fn activate_refuses_a_bad_block_size() {
    for bad in [0usize, 3, 1000] {
        let mut pbuf: PortBuf<10> = PortBuf::new(0, "in_1".to_owned(), false, 48_000);
        let (_prod, cons) = sample_queue(8);
        let config = PortBufProcessConfig { rb: cons, agg_bin_size: bad, bus: bus() };
        assert_eq!(pbuf.activate(config).err(), Some(ActivateError::BlockSize));
        assert_eq!(pbuf.quit(), Quit::NotRunning);
    }
}

#[test]
fn worker_plans_whole_blocks_only() {
    let (_prod, cons) = sample_queue(8);
    let (_tx, rx) = stop_signal();
    let config = PortBufProcessConfig { rb: cons, agg_bin_size: 4, bus: bus() };
    let worker = Worker::new(3, config, rx).ok().expect("block size is fine");
    assert_eq!(worker.agg_bin_size(), 4);
    assert_eq!(worker.plan(0), None);
    assert_eq!(worker.plan(3), None);
    assert_eq!(worker.plan(4), Some(4));
    assert_eq!(worker.plan(7), Some(4));
    assert_eq!(worker.plan(8), Some(8));
    assert_eq!(worker.plan(1_000_000), Some(FFT_BUF_SIZE));
}

#[test]
fn worker_leaves_the_remainder_for_the_next_iteration() {
    let (mut prod, cons) = sample_queue(16);
    let (_tx, rx) = stop_signal();
    let config = PortBufProcessConfig { rb: cons, agg_bin_size: 4, bus: bus() };
    let mut worker = Worker::new(0, config, rx).ok().expect("block size is fine");
    let mut buf: TriBuf<32> = TriBuf::new();

    let first: Vec<Sample> = (0..6).map(|i| s(i as f32)).collect();
    assert!(prod.push_block(&first).is_ok());
    let batch = worker.stage(&mean).expect("one block is queued");
    assert_eq!(floats(&batch.raw), vec![0.0, 1.0, 2.0, 3.0]);
    assert_eq!(floats(&batch.aggs), vec![1.5]);
    buf.commit(&batch);
    assert_eq!(worker.pending(), 2);
    assert!(worker.stage(&mean).is_none());
    assert_eq!(worker.pending(), 2);

    let second: Vec<Sample> = (6..12).map(|i| s(i as f32)).collect();
    assert!(prod.push_block(&second).is_ok());
    let batch = worker.stage(&mean).expect("two blocks are queued");
    assert_eq!(floats(&batch.raw), vec![4.0, 5.0, 6.0, 7.0, 8.0, 9.0, 10.0, 11.0]);
    assert_eq!(floats(&batch.aggs), vec![5.5, 9.5]);
    buf.commit(&batch);
    assert_eq!(worker.pending(), 0);
    assert_eq!(floats(&buf.agg.last_n(3)), vec![1.5, 5.5, 9.5]);
    assert_eq!(buf.raw.len(), 12);
}

#[test]
fn worker_never_stages_from_a_queue_smaller_than_a_block() {
    let (mut prod, cons) = sample_queue(2);
    let (_tx, rx) = stop_signal();
    let config = PortBufProcessConfig { rb: cons, agg_bin_size: 4, bus: bus() };
    let mut worker = Worker::new(0, config, rx).ok().expect("block size is fine");
    assert!(worker.stage(&mean).is_none());
    let full: Vec<Sample> = (0..2).map(|i| s(i as f32)).collect();
    assert!(prod.push_block(&full).is_ok());
    assert!(worker.stage(&mean).is_none());
    assert_eq!(worker.pending(), 2);
}

#[test]
fn stage_popped_holds_back_what_is_no_whole_block() {
    let (_prod, cons) = sample_queue(16);
    let (_tx, rx) = stop_signal();
    let config = PortBufProcessConfig { rb: cons, agg_bin_size: 4, bus: bus() };
    let mut worker = Worker::new(0, config, rx).ok().expect("block size is fine");
    assert!(worker.stage_popped(Vec::new(), &mean).is_none());
    let six: Vec<Sample> = (0..6).map(|i| s(i as f32)).collect();
    let batch = worker.stage_popped(six, &mean).expect("one whole block");
    assert_eq!(floats(&batch.raw), vec![0.0, 1.0, 2.0, 3.0]);
    assert_eq!(floats(&batch.aggs), vec![1.5]);
    assert!(worker.stage_popped(vec![s(6.0)], &mean).is_none());
    // What was held back comes first, in the order in which it was taken.
    let batch = worker.stage_popped(vec![s(7.0), s(8.0)], &mean).expect("one whole block");
    assert_eq!(floats(&batch.raw), vec![4.0, 5.0, 6.0, 7.0]);
    assert_eq!(floats(&batch.aggs), vec![5.5]);
    let batch = worker
        .stage_popped((9..16).map(|i| s(i as f32)).collect(), &mean)
        .expect("two whole blocks");
    assert_eq!(floats(&batch.raw), vec![8.0, 9.0, 10.0, 11.0, 12.0, 13.0, 14.0, 15.0]);
    assert_eq!(floats(&batch.aggs), vec![9.5, 13.5]);
    assert!(worker.stage_popped(Vec::new(), &mean).is_none());
}

#[test]
fn worker_stages_whole_blocks_only() {
    let (mut prod, cons) = sample_queue(16);
    let (_tx, rx) = stop_signal();
    let config = PortBufProcessConfig { rb: cons, agg_bin_size: 4, bus: bus() };
    let mut worker = Worker::new(0, config, rx).ok().expect("block size is fine");
    for queued in 1..=11usize {
        assert!(prod.push_block(&[s(queued as f32)]).is_ok());
        match worker.stage(&mean) {
            Some(batch) => {
                assert_eq!(batch.raw.len(), 4);
                assert_eq!(batch.aggs.len(), 1);
                assert_eq!(queued % 4, 0);
            }
            None => assert!(queued % 4 != 0),
        }
    }
    assert_eq!(worker.pending(), 3);
}

#[test]
fn commit_lets_the_trigger_look_at_raw_samples_only() {
    let mut buf: TriBuf<8> = TriBuf::new();
    let batch = Batch {
        raw: [-1.0f32, -1.0, -1.0, 1.0].iter().map(|x| s(*x)).collect(),
        aggs: [-1.0f32, -1.0, -1.0, 1.0].iter().map(|x| s(*x)).collect(),
    };
    buf.commit(&batch);
    assert_eq!(buf.raw.rising_idx(), 3);
    assert!(buf.raw.rise_cycle());
    assert_eq!(buf.agg.rising_idx(), 0);
    assert!(!buf.agg.rise_cycle());
    assert_eq!(buf.curr_idx(), (4, 4));
}

#[test]
fn worker_exits_on_a_stop_request_and_when_the_requester_is_gone() {
    let (_prod, cons) = sample_queue(8);
    let (tx, rx) = stop_signal();
    let config = PortBufProcessConfig { rb: cons, agg_bin_size: 4, bus: bus() };
    let mut worker = Worker::new(0, config, rx).ok().expect("block size is fine");
    assert!(matches!(worker.step(&mean, false), Step::Idle));
    assert!(tx.request());
    assert!(matches!(worker.step(&mean, false), Step::Exit));
    assert!(matches!(worker.step(&mean, false), Step::Idle));
    drop(tx);
    assert!(matches!(worker.step(&mean, false), Step::Exit));
}

#[test]
fn end_cycle_reports_a_complete_window_over_the_bus() {
    let bus = bus();
    let (_prod, cons) = sample_queue(8);
    let (_tx, rx) = stop_signal();
    let config = PortBufProcessConfig { rb: cons, agg_bin_size: 4, bus: bus.clone() };
    let mut worker = Worker::new(7, config, rx).ok().expect("block size is fine");
    // A window spans ten cycles.
    for _ in 0..9 {
        worker.begin_cycle(true);
        assert!(!worker.end_cycle(true));
    }
    assert!(bus.updates().is_empty());
    worker.begin_cycle(true);
    assert!(worker.end_cycle(true));
    let updts = bus.updates();
    assert_eq!(updts.len(), 1);
    match &updts[0] {
        Update::PortBuf(scviz::comm::PortBuf::TimingDiagnostics { port_idx, timing }) => {
            assert_eq!(*port_idx, 7);
            assert_eq!(timing.diagnostic_proc_cycle(), 10);
            assert_eq!(timing.diagnostic_proc_cycles(), 10);
        }
        _ => panic!("a timing report of the worker"),
    }
    // Without diagnostics nothing is timed and nothing reported.
    for _ in 0..20 {
        worker.begin_cycle(false);
        assert!(!worker.end_cycle(false));
    }
    assert!(bus.updates().is_empty());
}

#[test]
fn report_for_reports_complete_windows_only() {
    let timing = TimingDiagnostics::new(4);
    assert!(report_for(false, 1, timing).is_none());
    match report_for(true, 1, timing) {
        Some(Update::PortBuf(scviz::comm::PortBuf::TimingDiagnostics { port_idx, timing })) => {
            assert_eq!(port_idx, 1);
            assert_eq!(timing.diagnostic_proc_cycles(), 4);
        }
        _ => panic!("a timing report"),
    }
}

#[test]
fn quit_twice_is_quit_once() {
    let mut pbuf: PortBuf<10> = PortBuf::new(2, "in_3".to_owned(), true, 44_100);
    assert_eq!(pbuf.quit(), Quit::NotRunning);
    let (_prod, cons) = sample_queue(8);
    let config = PortBufProcessConfig { rb: cons, agg_bin_size: 2, bus: bus() };
    let worker = pbuf.activate(config).ok().expect("block size is fine");
    assert_eq!(pbuf.quit(), Quit::Requested);
    assert_eq!(pbuf.quit(), Quit::NotRunning);
    assert_eq!(pbuf.quit(), Quit::NotRunning);
    assert!(pbuf.enabled());
    assert_eq!(pbuf.name, "in_3");
    drop(worker);
}

#[test]
fn quit_says_when_the_worker_is_gone() {
    let mut pbuf: PortBuf<10> = PortBuf::new(2, "in_3".to_owned(), true, 44_100);
    let (_prod, cons) = sample_queue(8);
    let config = PortBufProcessConfig { rb: cons, agg_bin_size: 2, bus: bus() };
    let worker = pbuf.activate(config).ok().expect("block size is fine");
    drop(worker);
    assert_eq!(pbuf.quit(), Quit::WorkerGone);
    assert_eq!(pbuf.quit(), Quit::NotRunning);
}

fn connected(connected: bool, names: &[&str]) -> Update {
    Update::Jack(Jack::Connected {
        connected,
        port_names: names.iter().map(|n| n.to_string()).collect(),
    })
}

#[test]
fn connection_change_sets_enabled_of_the_named_channel() {
    let mut pbuf: PortBuf<10> = PortBuf::new(0, "scviz:in_1".to_owned(), false, 48_000);
    pbuf.update(&vec![connected(true, &["other:out", "scviz:in_1"])]);
    assert!(pbuf.enabled());
    pbuf.update(&vec![connected(false, &["scviz:in_2"])]);
    assert!(pbuf.enabled());
    pbuf.update(&vec![connected(false, &["scviz:in_1"])]);
    assert!(!pbuf.enabled());
    pbuf.update(&vec![connected(true, &[])]);
    assert!(!pbuf.enabled());
    // The last event that names the channel decides.
    pbuf.update(&vec![
        connected(true, &["scviz:in_1"]),
        connected(false, &["scviz:in_1"]),
        connected(true, &["scviz:in_1", "scviz:in_1"]),
        connected(false, &["in_1"]),
    ]);
    assert!(pbuf.enabled());
    assert!(pbuf.enabled);
}

#[test]
fn timing_report_reaches_the_channel_with_that_index() {
    let mut pbuf: PortBuf<10> = PortBuf::new(1, "in_2".to_owned(), false, 48_000);
    let mut timing = TimingDiagnostics::new(1);
    timing.done_with(123);
    let mine = Update::PortBuf(scviz::comm::PortBuf::TimingDiagnostics { port_idx: 1, timing });
    let other = Update::PortBuf(scviz::comm::PortBuf::TimingDiagnostics {
        port_idx: 0,
        timing: TimingDiagnostics::new(5),
    });
    let callback = Update::Jack(Jack::TimingDiagnostics(TimingDiagnostics::new(7)));
    assert_eq!(pbuf.diagnostics().diagnostic_proc_cycles(), 0);
    pbuf.update(&vec![other, callback]);
    assert_eq!(pbuf.diagnostics().diagnostic_proc_cycles(), 0);
    pbuf.update(&vec![mine]);
    assert_eq!(pbuf.diagnostics().diagnostic_proc_cycles(), 1);
    assert_eq!(pbuf.diagnostics().max_diag_cycle_time(), 123);
    assert_eq!(pbuf.timing.avg_diag_cycle_time(), 123);
    assert!(!pbuf.enabled());
}

#[test]
fn port_is_named_compares_whole_names() {
    let names = vec!["a".to_string(), "scviz:in_1".to_string()];
    assert!(port_is_named(&names, &"a".to_string()));
    assert!(port_is_named(&names, &"scviz:in_1".to_string()));
    assert!(!port_is_named(&names, &"in_1".to_string()));
    assert!(!port_is_named(&Vec::new(), &"a".to_string()));
}

#[test]
fn samples_per_window_rounds_up() {
    let pbuf: PortBuf<10> = PortBuf::new(0, "in_1".to_owned(), false, 48_000);
    // 2.5 ms at 48 kHz are 120 samples.
    assert_eq!(pbuf.samples_per_window(2_500_000), 120);
    assert_eq!(pbuf.samples_per_window(2_500_001), 121);
    assert_eq!(pbuf.samples_per_window(0), 0);
    assert_eq!(pbuf.samples_per_window(1), 1);
    assert_eq!(pbuf.samples_per_window(1_000_000_000), 48_000);
    let still: PortBuf<10> = PortBuf::new(0, "in_1".to_owned(), false, 0);
    assert_eq!(still.samples_per_window(1_000_000_000), 0);
}

#[test]
fn time_window_ends_at_the_trigger_and_is_bounded_by_the_history() {
    let pbuf: PortBuf<8> = PortBuf::new(0, "in_1".to_owned(), true, 1_000);
    let mut buf: TriBuf<8> = TriBuf::new();
    let raw: Vec<Sample> = [-4.0f32, -3.0, -2.0, -1.0, 1.0, 2.0].iter().map(|x| s(*x)).collect();
    buf.commit(&Batch { raw, aggs: Vec::new() });
    assert_eq!(buf.raw.rising_idx(), 4);
    // 3 ms at 1 kHz are 3 samples.
    let w = pbuf.time_window(&buf, 3_000_000);
    assert_eq!(w.len(), 3);
    assert_eq!((w[0].0, f(w[0].1)), (0, -3.0));
    assert_eq!((w[1].0, f(w[1].1)), (1, -2.0));
    assert_eq!((w[2].0, f(w[2].1)), (2, -1.0));
    // A longer window holds what was written before the trigger.
    let w = pbuf.time_window(&buf, u64::MAX);
    assert_eq!(w.len(), 4);
    assert_eq!(f(w[0].1), -4.0);
}
