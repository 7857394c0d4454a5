use scviz::array_view::ArrayView;
use scviz::array_view::with_ticks;
use scviz::sample::Sample;

fn s(x: f32) -> Sample {
    Sample::from_bits(x.to_bits())
}

fn f(x: Sample) -> f32 {
    f32::from_bits(x.to_bits())
}

fn floats(v: &[Sample]) -> Vec<f32> {
    v.iter().map(|x| f(*x)).collect()
}

#[test]
fn array_view() {
    let mut av: ArrayView<10> = ArrayView::new();
    av.push(s(2.0));
    av.push(s(3.0));

    let points = av.last_n(2);
    assert!(points.len() == 2);

    av.push(s(4.0));

    let points = av.last_n(2);
    assert!(f(points[0]) == 3.0);
    assert!(f(points[1]) == 4.0);
}

#[test]
fn array_view_push_rise() {
    let mut av: ArrayView<20> = ArrayView::new();
    for i in -5..5 {
        av.push_riser(s(i as f32));
    }
    for i in -5..5 {
        av.push_riser(s(i as f32));
    }
    // The second traversal crosses the threshold with the value 1.0, which
    // was written at slot 16.
    assert_eq!(av.rising_idx(), 16);
    assert!(av.rise_cycle());
    assert_eq!(av.idx(), 0);
    assert_eq!(av.len(), 20);
}

#[test]
fn capacity_two_keeps_the_last_two() {
    let mut av: ArrayView<2> = ArrayView::new();
    av.push(s(2.0));
    assert_eq!(floats(&av.last_n(2)), vec![2.0]);
    av.push(s(3.0));
    assert_eq!(floats(&av.last_n(2)), vec![2.0, 3.0]);
    av.push(s(4.0));
    assert_eq!(floats(&av.last_n(2)), vec![3.0, 4.0]);
    assert_eq!(floats(&av.last_n(1)), vec![4.0]);
    assert_eq!(floats(&av.last_n(0)), Vec::<f32>::new());
}

#[test]
fn read_of_more_than_written_is_not_padded() {
    let mut av: ArrayView<8> = ArrayView::new();
    assert!(av.last_n(3).is_empty());
    av.push(s(7.0));
    assert_eq!(floats(&av.last_n(5)), vec![7.0]);
    assert_eq!(av.len(), 1);
    assert_eq!(av.size(), 8);
}

#[test]
fn read_of_more_than_capacity_returns_capacity() {
    let mut av: ArrayView<3> = ArrayView::new();
    for i in 0..7 {
        av.push(s(i as f32));
    }
    assert_eq!(floats(&av.last_n(100)), vec![4.0, 5.0, 6.0]);
    assert_eq!(av.idx(), 1);
    assert_eq!(av.len(), 3);
}

#[test]
fn read_across_the_wrap_is_in_push_order() {
    let mut av: ArrayView<4> = ArrayView::new();
    for i in 0..6 {
        av.push(s(i as f32));
    }
    assert_eq!(floats(&av.last_n(3)), vec![3.0, 4.0, 5.0]);
    assert_eq!(floats(&av.last_n(4)), vec![2.0, 3.0, 4.0, 5.0]);
}

#[test]
fn last_is_the_most_recent_also_after_a_wrap() {
    let mut av: ArrayView<3> = ArrayView::new();
    av.push(s(1.0));
    assert_eq!(f(av.last()), 1.0);
    av.push(s(2.0));
    av.push(s(3.0));
    assert_eq!(av.idx(), 0);
    assert_eq!(f(av.last()), 3.0);
}

#[test]
fn push_slice_is_push_of_each() {
    let xs: Vec<Sample> = (0..5).map(|i| s(i as f32)).collect();
    let mut a: ArrayView<3> = ArrayView::new();
    let mut b: ArrayView<3> = ArrayView::new();
    a.push_slice(&xs);
    for x in &xs {
        b.push(*x);
    }
    assert_eq!(floats(&a.last_n(3)), floats(&b.last_n(3)));
    assert_eq!(floats(&a.last_n(3)), vec![2.0, 3.0, 4.0]);
    assert_eq!(a.idx(), b.idx());
}

#[test]
fn push_slice_with_rise_is_push_riser_of_each() {
    let xs: Vec<Sample> = [-1.0f32, -2.0, 3.0, 4.0, -1.0, 2.0].iter().map(|x| s(*x)).collect();
    let mut a: ArrayView<16> = ArrayView::new();
    let mut b: ArrayView<16> = ArrayView::new();
    a.push_slice_with_rise(&xs);
    for x in &xs {
        b.push_riser(*x);
    }
    assert_eq!(a.rising_idx(), b.rising_idx());
    assert_eq!(a.rising_idx(), 5);
    assert_eq!(a.rise_cycle(), b.rise_cycle());
    assert_eq!(floats(&a.last_n(6)), floats(&b.last_n(6)));
}

#[test]
fn trigger_ignores_the_first_two_writes() {
    let mut av: ArrayView<8> = ArrayView::new();
    av.push_riser(s(5.0));
    av.push_riser(s(5.0));
    assert!(!av.rise_cycle());
    assert_eq!(av.rising_idx(), 0);
    av.push_riser(s(5.0));
    assert!(av.rise_cycle());
    assert_eq!(av.rising_idx(), 2);
}

#[test]
fn trigger_needs_a_value_above_the_threshold() {
    let mut av: ArrayView<8> = ArrayView::new();
    for x in [-1.0f32, -1.0, -1.0, 0.0, -0.0, f32::NAN] {
        av.push_riser(s(x));
    }
    assert!(!av.rise_cycle());
    av.push_riser(s(f32::MIN_POSITIVE));
    assert!(av.rise_cycle());
    assert_eq!(av.rising_idx(), 6);
    // Zero and NaN are not below the threshold: the stay above it goes on.
    av.push_riser(s(0.0));
    av.push_riser(s(f32::NAN));
    assert!(av.rise_cycle());
    av.push_riser(s(-f32::MIN_POSITIVE));
    assert!(!av.rise_cycle());
    assert_eq!(av.rising_idx(), 6);
}

#[test]
fn window_from_trigger_ends_at_the_crossing() {
    let mut av: ArrayView<16> = ArrayView::new();
    for x in [-3.0f32, -2.0, -1.0, 1.0, 2.0, 3.0] {
        av.push_riser(s(x));
    }
    assert_eq!(av.rising_idx(), 3);
    let w = av.last_nt_rising(2);
    assert_eq!(w.len(), 2);
    assert_eq!((w[0].0, f(w[0].1)), (0, -2.0));
    assert_eq!((w[1].0, f(w[1].1)), (1, -1.0));
    // No more than was written before the crossing.
    let w = av.last_nt_rising(10);
    assert_eq!(w.len(), 3);
    assert_eq!(f(w[0].1), -3.0);
    assert_eq!(w[2].0, 2);
}

#[test]
fn window_from_trigger_goes_round_the_ring() {
    let mut av: ArrayView<4> = ArrayView::new();
    for x in [-1.0f32, -1.0, -1.0, -1.0, 1.0, 2.0] {
        av.push_riser(s(x));
    }
    // The crossing was written at slot 0 after the wrap.
    assert_eq!(av.rising_idx(), 0);
    let w = av.last_nt_rising(2);
    assert_eq!(w.len(), 2);
    assert_eq!(f(w[0].1), -1.0);
    assert_eq!(f(w[1].1), -1.0);
    let w = av.last_nt_rising(9);
    assert_eq!(w.len(), 4);
}

#[test]
fn last_nt_pairs_each_entry_with_its_position() {
    let mut av: ArrayView<4> = ArrayView::new();
    for i in 0..3 {
        av.push(s(i as f32 * 10.0));
    }
    let w = av.last_nt(2);
    assert_eq!(w.len(), 2);
    assert_eq!((w[0].0, f(w[0].1)), (0, 10.0));
    assert_eq!((w[1].0, f(w[1].1)), (1, 20.0));
    let t = with_ticks(&av.last_n(3));
    assert_eq!(t.len(), 3);
    assert_eq!(t[2].0, 2);
}

#[test]
fn clear_forgets_what_was_written() {
    let mut av: ArrayView<4> = ArrayView::new();
    for x in [-1.0f32, -1.0, -1.0, 1.0, 1.0, 1.0] {
        av.push_riser(s(x));
    }
    av.clear();
    assert_eq!(av.len(), 0);
    assert_eq!(av.idx(), 0);
    assert_eq!(av.rising_idx(), 0);
    assert!(av.last_n(4).is_empty());
    assert!(av.last_nt_rising(4).is_empty());
    av.push(s(9.0));
    assert_eq!(floats(&av.last_n(4)), vec![9.0]);
}
