use sierpinsky::drawer::DrawerState;
use sierpinsky::util::Point;

fn run_to_completion(drawer: &mut DrawerState, buffer: &mut [u32]) -> usize {
    let mut calls = 0;
    while !drawer.is_done() {
        drawer.update_drawing(buffer);
        calls += 1;
    }
    calls
}

#[test]
fn test_creates_expected_state() {
    let mut triangle_drawer = DrawerState::new(10, 100, 42);

    triangle_drawer.set_height(200);
    triangle_drawer.set_width(300);

    assert_eq!(triangle_drawer.curr_point(), Point { x: 0, y: 0 });
    assert_eq!(triangle_drawer.height(), 200);
    assert_eq!(triangle_drawer.width(), 300);
    assert_eq!(triangle_drawer.iterations_per_step(), 10);
    assert_eq!(triangle_drawer.iteration_limit(), 100);
    assert_eq!(triangle_drawer.curr_max_count(), 0);
    assert_eq!(triangle_drawer.iteration_count(), 0);
}

#[test]
fn test_runs_chaos_game() {
    let mut triangle_drawer = DrawerState::new(500, 256 * 512 * 2, 0x5eed);

    triangle_drawer.set_height(512);
    triangle_drawer.set_width(256);

    let mut buffer = vec![0u32; 256 * 512];
    run_to_completion(&mut triangle_drawer, &mut buffer);

    let non_zero = buffer.iter().filter(|&&v| v > 0).count();
    let area = non_zero as f32 / (512.0 * 256.0);

    assert!(area < 0.15);
}

#[test]
fn first_step_warms_up_without_drawing() {
    let mut drawer = DrawerState::new(10, 100, 3);
    drawer.set_width(4);
    drawer.set_height(4);
    let mut buffer = vec![0u32; 16];
    let max = drawer.update_drawing(&mut buffer);
    assert_eq!(max, 0);
    assert_eq!(drawer.iteration_count(), 20);
    assert!(buffer.iter().all(|&v| v == 0));
    assert_ne!(drawer.curr_point(), Point { x: 0, y: 0 });

    let max = drawer.update_drawing(&mut buffer);
    assert_eq!(drawer.iteration_count(), 30);
    assert_eq!(buffer.iter().map(|&v| v as u64).sum::<u64>(), 10);
    assert_eq!(max, *buffer.iter().max().unwrap());
    assert_eq!(max, drawer.curr_max_count());
}

#[test]
fn step_stops_at_the_limit() {
    let mut drawer = DrawerState::new(100, 50, 8);
    drawer.set_width(8);
    drawer.set_height(8);
    let mut buffer = vec![0u32; 64];
    drawer.update_drawing(&mut buffer);
    assert_eq!(drawer.iteration_count(), 50);
    assert!(drawer.is_done());
    assert_eq!(buffer.iter().map(|&v| v as u64).sum::<u64>(), 30);
    let before = buffer.clone();
    drawer.update_drawing(&mut buffer);
    assert_eq!(drawer.iteration_count(), 50);
    assert_eq!(buffer, before);
}

#[test]
fn counts_and_maximum_never_decrease() {
    let mut drawer = DrawerState::new(37, 2000, 11);
    drawer.set_width(16);
    drawer.set_height(16);
    let mut buffer = vec![0u32; 256];
    let mut last_count = drawer.iteration_count();
    let mut last_max = drawer.curr_max_count();
    while !drawer.is_done() {
        let max = drawer.update_drawing(&mut buffer);
        assert!(drawer.iteration_count() >= last_count);
        assert!(drawer.iteration_count() <= drawer.iteration_limit());
        assert!(max >= last_max);
        last_count = drawer.iteration_count();
        last_max = max;
    }
    assert_eq!(drawer.iteration_count(), 2000);
}

#[test]
fn finishes_in_limit_over_step_rounded_up_calls() {
    for &(per_step, limit, expected) in &[(500u32, 1000u32, 2usize), (500, 1001, 3), (20, 100, 5), (64, 10, 1), (30, 0, 0)] {
        let mut drawer = DrawerState::new(per_step, limit, 1);
        drawer.set_width(10);
        drawer.set_height(10);
        let mut buffer = vec![0u32; 100];
        assert_eq!(run_to_completion(&mut drawer, &mut buffer), expected);
    }
}

#[test]
fn same_seed_draws_the_same_picture() {
    let mut a = DrawerState::new(100, 5000, 2024);
    let mut b = DrawerState::new(100, 5000, 2024);
    for d in [&mut a, &mut b] {
        d.set_width(32);
        d.set_height(64);
    }
    let mut buf_a = vec![0u32; 32 * 64];
    let mut buf_b = vec![0u32; 32 * 64];
    while !a.is_done() {
        assert_eq!(a.update_drawing(&mut buf_a), b.update_drawing(&mut buf_b));
        assert_eq!(buf_a, buf_b);
        assert_eq!(a.curr_point(), b.curr_point());
    }
    assert!(b.is_done());

    let mut c = DrawerState::new(100, 5000, 2025);
    c.set_width(32);
    c.set_height(64);
    let mut buf_c = vec![0u32; 32 * 64];
    while !c.is_done() {
        c.update_drawing(&mut buf_c);
    }
    assert_ne!(buf_a, buf_c);
}

#[test]
fn counters_wrap_on_overflow() {
    let mut drawer = DrawerState::new(21, 21, 5);
    drawer.set_width(1);
    drawer.set_height(1);
    let mut buffer = vec![u32::MAX];
    let max = drawer.update_drawing(&mut buffer);
    assert_eq!(buffer, vec![0]);
    assert_eq!(max, 0);
}

#[test]
fn lowering_the_limit_finishes_the_drawer() {
    let mut drawer = DrawerState::new(50, 1000, 6);
    drawer.set_width(10);
    drawer.set_height(10);
    let mut buffer = vec![0u32; 100];
    drawer.update_drawing(&mut buffer);
    assert!(!drawer.is_done());
    drawer.set_number_of_iterations(40);
    assert!(drawer.is_done());
    assert_eq!(drawer.iteration_limit(), 40);
}

#[test]
fn reports_whether_the_next_step_plots() {
    let mut drawer = DrawerState::new(20, 100, 9);
    assert!(!drawer.plots_next_step());
    let mut empty: Vec<u32> = Vec::new();
    assert_eq!(drawer.update_drawing(&mut empty), 0);
    assert_eq!(drawer.iteration_count(), 20);
    assert!(drawer.plots_next_step());
    drawer.set_number_of_iterations(20);
    assert!(!drawer.plots_next_step());
}
