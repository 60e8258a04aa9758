use ray_tracing::dispatch::{batch_plan, ConfigError, RenderState};
use ray_tracing::raster::ImageParams;

type Color = (f64, f64, f64);

fn color_of(i: usize) -> Color {
    (i as f64, 2.0 * i as f64, 0.5)
}

#[test]
fn test_batch_plan_partition() {
    let batches = batch_plan(10, 3);
    assert_eq!(batches, vec![vec![0, 1, 2], vec![3, 4, 5], vec![6, 7, 8], vec![9]]);

    let batches = batch_plan(9, 3);
    assert_eq!(batches, vec![vec![0, 1, 2], vec![3, 4, 5], vec![6, 7, 8]]);

    let batches = batch_plan(0, 4);
    assert!(batches.is_empty());

    let batches = batch_plan(3, 10);
    assert_eq!(batches, vec![vec![0, 1, 2]]);
}

#[test]
fn test_start_rendering_plan() {
    // 4 x 4 pixels over 2 workers: chunk = 16 / 2 / 8 = 1 pixel per batch.
    let mut state = RenderState::new(2, 5);
    let img = ImageParams { width: 4, height: 4 };
    let plan = state.start_rendering(&img, 3).unwrap();
    assert!(state.is_rendering);
    assert_eq!(state.num_finished, 0);
    assert_eq!(state.samples_number, 3);
    assert_eq!(plan.len(), 16);
    for (j, batch) in plan.iter().enumerate() {
        assert_eq!(batch, &vec![j]);
    }

    // A small image clamps the chunk to one pixel rather than zero.
    let mut state = RenderState::new(12, 5);
    let img = ImageParams { width: 2, height: 2 };
    let plan = state.start_rendering(&img, 1).unwrap();
    assert_eq!(plan.len(), 4);

    // A large image gives every worker several batches.
    let mut state = RenderState::new(2, 5);
    let img = ImageParams { width: 8, height: 8 };
    let plan = state.start_rendering(&img, 1).unwrap();
    // chunk = 64 / 2 / 8 = 4
    assert_eq!(plan.len(), 16);
    assert_eq!(plan[0], vec![0, 1, 2, 3]);
    assert_eq!(plan[15], vec![60, 61, 62, 63]);
}

#[test]
fn test_start_rendering_config_errors() {
    let mut state = RenderState::new(4, 5);
    let r = state.start_rendering(&ImageParams { width: 0, height: 10 }, 1);
    assert_eq!(r.unwrap_err(), ConfigError::ZeroImageDimension);
    assert!(!state.is_rendering);

    let r = state.start_rendering(&ImageParams { width: 10, height: 0 }, 1);
    assert_eq!(r.unwrap_err(), ConfigError::ZeroImageDimension);

    let mut state = RenderState::new(4, 0);
    let r = state.start_rendering(&ImageParams { width: 10, height: 10 }, 1);
    assert_eq!(r.unwrap_err(), ConfigError::ZeroDepth);
    assert!(!state.is_rendering);
}

#[test]
fn test_render_step_writes_and_finishes() {
    let mut state = RenderState::new(2, 5);
    let img = ImageParams { width: 2, height: 2 };
    state.start_rendering(&img, 1).unwrap();

    let black = (0.0, 0.0, 0.0);
    let mut buffer: Vec<Color> = vec![black; 4];

    // First drain: two colored batches, one acknowledgement.
    let msgs = vec![
        Some(vec![(0usize, color_of(0)), (1usize, color_of(1))]),
        Some(vec![(2usize, color_of(2))]),
        None,
    ];
    let done = state.render_step(&mut buffer, &msgs);
    assert!(!done);
    assert_eq!(state.num_finished, 1);
    assert_eq!(buffer[0], color_of(0));
    assert_eq!(buffer[1], color_of(1));
    assert_eq!(buffer[2], color_of(2));
    assert_eq!(buffer[3], black);

    // Second drain: the last batch and the last acknowledgement.
    let msgs = vec![Some(vec![(3usize, color_of(3))]), None];
    let done = state.render_step(&mut buffer, &msgs);
    assert!(done);
    assert_eq!(state.num_finished, 2);
    assert_eq!(buffer[3], color_of(3));
}

#[test]
fn test_render_step_idle_discards() {
    let mut state = RenderState::new(2, 5);
    let mut buffer: Vec<Color> = vec![(9.0, 9.0, 9.0); 4];
    let msgs = vec![Some(vec![(0usize, (1.0, 1.0, 1.0))]), None];
    let done = state.render_step(&mut buffer, &msgs);
    assert!(!done);
    assert_eq!(state.num_finished, 0);
    assert_eq!(buffer, vec![(9.0, 9.0, 9.0); 4]);
}

#[test]
fn test_render_step_last_write_wins() {
    let mut state = RenderState::new(1, 5);
    state.start_rendering(&ImageParams { width: 2, height: 1 }, 1).unwrap();
    let mut buffer: Vec<Color> = vec![(0.0, 0.0, 0.0); 2];
    let msgs = vec![
        Some(vec![(0usize, (1.0, 0.0, 0.0))]),
        Some(vec![(0usize, (2.0, 0.0, 0.0))]),
    ];
    state.render_step(&mut buffer, &msgs);
    assert_eq!(buffer[0], (2.0, 0.0, 0.0));
}

#[test]
fn test_render_full_run_covers_every_pixel() {
    // A complete exchange: every planned batch answered in order, then one
    // acknowledgement per worker; every pixel must hold its own color.
    let workers = 3;
    let mut state = RenderState::new(workers, 5);
    let img = ImageParams { width: 16, height: 8 };
    let plan = state.start_rendering(&img, 1).unwrap();

    let black = (0.0, 0.0, 0.0);
    let mut buffer: Vec<Color> = vec![black; 16 * 8];

    let mut msgs: Vec<Option<Vec<(usize, Color)>>> = Vec::new();
    for batch in &plan {
        msgs.push(Some(batch.iter().map(|&p| (p, color_of(p))).collect()));
    }
    for _ in 0..workers {
        msgs.push(None);
    }
    let done = state.render_step(&mut buffer, &msgs);
    assert!(done);
    for p in 0..buffer.len() {
        assert_eq!(buffer[p], color_of(p));
    }
}

#[test]
fn test_dispatcher_restart() {
    // Start rendering image A; stop before completion; start image B. After
    // B completes, the buffer holds only image-B colors.
    let a_color = (1.0, 0.0, 0.0);
    let b_color = (0.0, 0.0, 1.0);

    let mut state = RenderState::new(1, 5);
    let img = ImageParams { width: 2, height: 2 };
    let _plan_a = state.start_rendering(&img, 1).unwrap();
    let mut buffer: Vec<Color> = vec![(0.0, 0.0, 0.0); 4];

    // A delivers only part of its output before the stop.
    let msgs = vec![Some(vec![(0usize, a_color), (1usize, a_color)])];
    let done = state.render_step(&mut buffer, &msgs);
    assert!(!done);

    state.stop_rendering();

    // Stale A output arriving while idle is discarded.
    let stale = vec![Some(vec![(2usize, a_color)]), None];
    let done = state.render_step(&mut buffer, &stale);
    assert!(!done);
    assert_eq!(buffer[2], (0.0, 0.0, 0.0));

    // B renders every pixel and completes.
    let plan_b = state.start_rendering(&img, 1).unwrap();
    let mut msgs: Vec<Option<Vec<(usize, Color)>>> = Vec::new();
    for batch in &plan_b {
        msgs.push(Some(batch.iter().map(|&p| (p, b_color)).collect()));
    }
    msgs.push(None);
    let done = state.render_step(&mut buffer, &msgs);
    assert!(done);
    assert_eq!(buffer, vec![b_color; 4]);
}
