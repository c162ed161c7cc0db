use frakt::cli::{Direction, DirectionQuery, ServerCommand, WorkerCommand};
use frakt::error::FraktError;
use frakt::models::{
    FractalDescriptor, FragmentRequest, Mandelbrot, PixelIntensity, Point, Range, RenderingData,
    Resolution, UNITS_PER_ONE,
};
use frakt::palette::{ColorPalette, PaletteHandler, T_ONE};
use frakt::registry::{Endpoint, Worker};
use frakt::render::{start_point, Canvas, Inbox};
use frakt::server::{Server, ServerConfig};
use frakt::server_state::ServerState;
use frakt::tiles::plan_tiles;
use frakt::worker::{build_fragment_result, pixel_coordinate, WorkerStep};

const U: i64 = UNITS_PER_ONE;

fn config(width: u16, height: u16, tiles: u16) -> ServerConfig {
    ServerConfig {
        address: "127.0.0.1".to_string(),
        port: 8787,
        width,
        height,
        tiles,
        graphics: true,
        portal: false,
    }
}

fn view(x0: i64, y0: i64, x1: i64, y1: i64) -> Range {
    Range { min: Point { x: x0, y: y0 }, max: Point { x: x1, y: y1 } }
}

fn endpoint(n: u128) -> Endpoint {
    Endpoint { ip: n, port: 40000 }
}

fn request(name: &str) -> FragmentRequest {
    FragmentRequest::new(name.to_string(), 500)
}

fn uniform(n: usize, t: u32) -> Vec<u32> {
    vec![t; n]
}

#[test]
fn tiles_cover_viewport_and_canvas() {
    let v = view(-2 * U, -2 * U, 2 * U, 2 * U);
    let tiles = plan_tiles(&v, 10, 7, 3);
    assert_eq!(tiles.len(), 9);
    let area: u32 = tiles.iter().map(|t| t.resolution.nx as u32 * t.resolution.ny as u32).sum();
    assert_eq!(area, 70);
    assert_eq!(tiles[0].range.min, v.min);
    assert_eq!(tiles[8].range.max, v.max);
    for row in 0..3 {
        for col in 0..3 {
            let t = tiles[row * 3 + col];
            if col > 0 {
                assert_eq!(t.range.min.x, tiles[row * 3 + col - 1].range.max.x);
            }
            if row > 0 {
                assert_eq!(t.range.min.y, tiles[(row - 1) * 3 + col].range.max.y);
            }
            let nx = if col == 2 { 4 } else { 3 };
            let ny = if row == 2 { 3 } else { 2 };
            assert_eq!(t.resolution, Resolution { nx, ny });
        }
    }
}

#[test]
fn fresh_queue_hands_out_each_tile_once() {
    let mut s = Server::from_config(config(8, 8, 3)).unwrap();
    s.regenerate_tiles();
    let mut seen = Vec::new();
    for _ in 0..9 {
        let task = s.create_fragment_task().unwrap();
        assert!(!seen.contains(&task));
        assert_eq!(task.max_iteration, 256);
        assert_eq!(task.id.count, 16);
        seen.push(task);
    }
    assert!(s.create_fragment_task().is_none());
    assert!(s.create_fragment_task().is_none());
    assert!(s.dequeue_task().is_none());
}

#[test]
fn pan_and_back_restores_viewport() {
    let mut s = Server::from_config(config(8, 8, 2)).unwrap();
    let start = s.range();
    s.move_right();
    assert_ne!(s.range(), start);
    s.move_left();
    assert_eq!(s.range(), start);
    s.move_up();
    s.move_down();
    assert_eq!(s.range(), start);
    s.move_left();
    s.move_right();
    assert_eq!(s.range(), start);
    s.move_down();
    s.move_up();
    assert_eq!(s.range(), start);
}

#[test]
fn zoom_scales_half_extents() {
    let mut s = Server::new("x".to_string(), 1, 8, 8);
    s.zoom(9, 10);
    assert_eq!(s.range(), view(-18 * U / 10, -18 * U / 10, 18 * U / 10, 18 * U / 10));
    s.zoom(10, 9);
    assert_eq!(s.range(), view(-2 * U, -2 * U, 2 * U, 2 * U));
    assert_eq!(s.pending_tiles().len(), 16);
}

#[test]
fn zoom_refuses_too_thin_viewport() {
    let mut s = Server::new("x".to_string(), 1, 8, 8);
    let start = s.range();
    s.zoom(0, 1);
    assert_eq!(s.range(), start);
}

#[test]
fn latest_registration_wins() {
    let mut s = Server::from_config(config(4, 4, 1)).unwrap();
    s.register_worker(endpoint(1), Worker::new("a".to_string(), 1, "h".to_string(), 1));
    s.register_worker(endpoint(2), Worker::new("b".to_string(), 2, "h".to_string(), 1));
    s.register_worker(endpoint(1), Worker::new("c".to_string(), 3, "h".to_string(), 1));
    assert_eq!(s.worker_count(), 2);
    assert_eq!(s.get_worker(&endpoint(1)).unwrap().name, "c");
    assert_eq!(s.get_worker(&endpoint(1)).unwrap().maximal_work_load, 3);
    assert_eq!(s.get_worker(&endpoint(2)).unwrap().name, "b");
    assert!(s.get_worker(&endpoint(3)).is_none());
}

#[test]
fn single_tile_mandelbrot() {
    let mut s = Server::from_config(config(4, 4, 1)).unwrap();
    let task = s.process_fragment_request(request("w1"), endpoint(7));
    assert_eq!(task.resolution, Resolution { nx: 4, ny: 4 });
    assert_eq!(task.range, view(-2 * U, -2 * U, 2 * U, 2 * U));
    assert_eq!(task.fractal, FractalDescriptor::Mandelbrot(Mandelbrot {}));
    assert_eq!(s.get_worker(&endpoint(7)).unwrap().name, "w1");

    let pixels: Vec<PixelIntensity> =
        (0..16).map(|i| PixelIntensity::new(0, (i as f32).to_bits())).collect();
    let (result, payload) = build_fragment_result(&task, &pixels);
    assert_eq!(result.pixels.offset, 16);
    assert_eq!(result.pixels.count, 128);
    assert_eq!(payload.len(), 16 + 128);
    let (decoded, worker) = s.process_fragment_result(&result, &payload, &endpoint(7)).unwrap();
    assert_eq!(decoded, pixels);
    assert_eq!(worker, "w1");

    let data = RenderingData { result, iterations: uniform(16, T_ONE / 2), worker };
    let mut canvas = Canvas::new(4, 4);
    assert!(canvas.render(&data, &s.range(), &PaletteHandler::new()));
    assert_eq!(start_point(&s.range(), &result.range.min, 4, 4), (0, 0));
    for p in canvas.frame().chunks(4) {
        assert_eq!(p, &[143, 239, 135, 255]);
    }
}

#[test]
fn pan_right_then_regenerate() {
    let mut s = Server::from_config(config(4, 4, 1)).unwrap();
    let _ = s.process_fragment_request(request("w1"), endpoint(7));
    s.move_right();
    assert_eq!(s.range(), view(-12 * U / 10, -2 * U, 28 * U / 10, 2 * U));
    assert_eq!(s.pending_tiles().len(), 1);
    let task = s.process_fragment_request(request("w1"), endpoint(7));
    let v = s.range();
    assert!(v.min.x <= task.range.min.x && task.range.max.x <= v.max.x);
    assert!(v.min.y <= task.range.min.y && task.range.max.y <= v.max.y);
}

#[test]
fn two_workers_fill_four_tiles() {
    let mut s = Server::from_config(config(4, 4, 2)).unwrap();
    let mut canvas = Canvas::new(4, 4);
    let palette = PaletteHandler::new();
    for i in 0..4u128 {
        let ep = endpoint(i % 2);
        let task = s.process_fragment_request(request(if i % 2 == 0 { "a" } else { "b" }), ep);
        let pixels: Vec<PixelIntensity> = (0..4).map(|_| PixelIntensity::new(0, 0)).collect();
        let (result, payload) = build_fragment_result(&task, &pixels);
        let (decoded, worker) = s.process_fragment_result(&result, &payload, &ep).unwrap();
        assert_eq!(decoded.len(), 4);
        let data = RenderingData { result, iterations: uniform(4, T_ONE / 4), worker };
        assert!(canvas.render(&data, &s.range(), &palette));
    }
    assert_eq!(s.worker_count(), 2);
    for p in canvas.frame().chunks(4) {
        assert_eq!(p, &[26, 134, 228, 255]);
    }
}

#[test]
fn result_without_request_registers_nobody() {
    let s = Server::from_config(config(4, 4, 1)).unwrap();
    let mut payload = vec![0u8; 16];
    payload.extend_from_slice(&[0u8; 8]);
    let result = frakt::models::FragmentResult {
        id: frakt::models::U8Data { offset: 99, count: 3 },
        resolution: Resolution { nx: 1, ny: 1 },
        range: view(0, 0, U, U),
        pixels: frakt::models::U8Data { offset: 16, count: 8 },
    };
    let (pixels, name) = s.process_fragment_result(&result, &payload, &endpoint(5)).unwrap();
    assert_eq!(pixels.len(), 1);
    assert!(name.starts_with("worker-"));
    assert_eq!(name.len(), 43);
    let (_, other) = s.process_fragment_result(&result, &payload, &endpoint(5)).unwrap();
    assert_ne!(name, other);
    assert_eq!(s.worker_count(), 0);
}

#[test]
fn misaligned_result_is_rejected() {
    let s = Server::from_config(config(4, 4, 1)).unwrap();
    let result = frakt::models::FragmentResult {
        id: frakt::models::U8Data { offset: 0, count: 16 },
        resolution: Resolution { nx: 1, ny: 1 },
        range: view(0, 0, U, U),
        pixels: frakt::models::U8Data { offset: 16, count: 8 },
    };
    let payload = vec![0u8; 21];
    assert!(matches!(
        s.process_fragment_result(&result, &payload, &endpoint(5)),
        Err(FraktError::Protocol)
    ));
}

#[test]
fn palette_cycle_returns_to_classic() {
    let mut p = PaletteHandler::new();
    assert_eq!(p.current_palette, ColorPalette::Classic);
    p.cycle_palette();
    assert_eq!(p.current_palette, ColorPalette::Inverted);
    p.cycle_palette();
    assert_eq!(p.current_palette, ColorPalette::Grayscale);
    p.cycle_palette();
    assert_eq!(p.current_palette, ColorPalette::Classic);
}

#[test]
fn palette_colors_are_fixed() {
    let p = PaletteHandler::new();
    let q = T_ONE / 4;
    assert_eq!(p.calculate_color(0), (0, 0, 0));
    assert_eq!(p.calculate_color(q), (26, 134, 228));
    assert_eq!(p.calculate_color(2 * q), (143, 239, 135));
    assert_eq!(p.calculate_color(3 * q), (242, 134, 25));
    assert_eq!(p.calculate_color(4 * q), (0, 0, 0));
    assert_eq!(p.inverted_palette(q), (229, 121, 27));
    assert_eq!(p.grayscale_palette(q), (63, 63, 63));
    assert_eq!(p.grayscale_palette(3 * q), (191, 191, 191));
    assert_eq!(p.grayscale_palette(2 * T_ONE), (255, 255, 255));
}

#[test]
fn invalid_grid_is_config_error() {
    assert!(matches!(Server::from_config(config(4, 4, 0)), Err(FraktError::Config)));
    assert!(matches!(Server::from_config(config(4, 2, 3)), Err(FraktError::Config)));
}

#[test]
fn cycling_fractals_wraps_around() {
    let mut s = Server::from_config(config(4, 4, 1)).unwrap();
    let first = s.current_fractal();
    for _ in 0..5 {
        s.cycle_fractal();
    }
    assert_eq!(s.current_fractal(), first);
    s.cycle_fractal();
    assert_ne!(s.current_fractal(), first);
}

#[test]
fn off_canvas_tiles_are_clipped() {
    let mut canvas = Canvas::new(2, 2);
    let v = view(0, 0, 2 * U, 2 * U);
    assert_eq!(start_point(&v, &Point { x: -U, y: U }, 2, 2), (-1, 1));
    let data = RenderingData {
        result: frakt::models::FragmentResult {
            id: frakt::models::U8Data { offset: 0, count: 16 },
            resolution: Resolution { nx: 2, ny: 2 },
            range: view(-U, U, U, 3 * U),
            pixels: frakt::models::U8Data { offset: 16, count: 32 },
        },
        iterations: vec![0, T_ONE / 2, 0, 0],
        worker: "w".to_string(),
    };
    assert!(canvas.render(&data, &v, &PaletteHandler::new()));
    assert_eq!(canvas.frame(), &vec![0, 0, 0, 0, 0, 0, 0, 0, 143, 239, 135, 255, 0, 0, 0, 0]);
    let bad = RenderingData { iterations: vec![1], ..data };
    assert!(!canvas.render(&bad, &v, &PaletteHandler::new()));
}

#[test]
fn inbox_fills_first_free_slot() {
    let mut inbox = Inbox::new(2);
    let mk = |n: &str| RenderingData {
        result: frakt::models::FragmentResult {
            id: frakt::models::U8Data { offset: 0, count: 0 },
            resolution: Resolution { nx: 1, ny: 1 },
            range: view(0, 0, 1, 1),
            pixels: frakt::models::U8Data { offset: 0, count: 0 },
        },
        iterations: vec![0],
        worker: n.to_string(),
    };
    assert!(inbox.deposit(mk("a")));
    assert!(inbox.deposit(mk("b")));
    assert!(!inbox.deposit(mk("c")));
    let out = inbox.take_all();
    assert_eq!(out.len(), 2);
    assert_eq!(out[0].worker, "a");
    assert_eq!(out[1].worker, "b");
    assert!(inbox.take_all().is_empty());
    assert!(inbox.deposit(mk("d")));
}

#[test]
fn pixel_coordinates_follow_the_range() {
    let r = view(-2 * U, -2 * U, 2 * U, 2 * U);
    let res = Resolution { nx: 4, ny: 8 };
    assert_eq!(pixel_coordinate(&r, &res, 0, 0), Point { x: -2 * U, y: -2 * U });
    assert_eq!(pixel_coordinate(&r, &res, 3, 4), Point { x: U, y: 0 });
}

#[test]
fn worker_steps_cycle_and_retry() {
    let (s, d) = WorkerStep::Connect.advance(true);
    assert_eq!((s, d), (WorkerStep::SendRequest, 0));
    assert_eq!(WorkerStep::SendResult.advance(true), (WorkerStep::Connect, 0));
    assert_eq!(WorkerStep::Compute.advance(false), (WorkerStep::Connect, 100));
}

#[test]
fn server_options_fill_defaults() {
    let c = ServerCommand {
        address: None,
        port: None,
        width: Some(300),
        height: None,
        tiles: None,
        graphics: None,
        portal: false,
        log_level: None,
    }
    .into_config();
    assert_eq!(c.address, "0.0.0.0");
    assert_eq!((c.port, c.width, c.height, c.tiles, c.graphics), (8787, 300, 800, 4, true));
}

#[test]
fn worker_options_fill_defaults() {
    let cmd = WorkerCommand { name: None, address: None, port: None, maximal_work_load: None, count: None };
    assert_eq!(cmd.loops(), 1);
    let w = cmd.into_worker();
    assert!(w.name.starts_with("worker-"));
    assert_eq!(w.name.len(), 43);
    assert_eq!((w.address.as_str(), w.port, w.maximal_work_load), ("localhost", 8787, 500));
}

#[test]
fn direction_query_ignores_case() {
    let q = |s: &str| DirectionQuery { direction: s.to_string() }.parse();
    assert_eq!(q("TOP"), Some(Direction::Top));
    assert_eq!(q("Right"), Some(Direction::Right));
    assert_eq!(q("bottom"), Some(Direction::Bottom));
    assert_eq!(q("LeFt"), Some(Direction::Left));
    assert_eq!(q("up"), None);
}

#[test]
fn server_state_starts_empty() {
    let st = ServerState::new();
    assert!(st.metrics.is_empty());
    assert!(st.workers.is_empty());
}

#[test]
fn portal_request_rotates_queue() {
    let mut s = Server::from_config(config(4, 4, 2)).unwrap();
    let first = s.pending_tiles()[0];
    let task = s.process_portal_fragment_request().unwrap();
    assert_eq!(task.range, first.range);
    assert_eq!(s.pending_tiles().len(), 4);
    assert_eq!(s.pending_tiles()[3], first);
}

#[test]
fn request_on_empty_queue_regenerates() {
    let mut s = Server::from_config(config(4, 4, 1)).unwrap();
    let a = s.process_fragment_request(request("w"), endpoint(1));
    assert_eq!(s.pending_tiles().len(), 0);
    let b = s.process_fragment_request(request("w"), endpoint(1));
    assert_eq!(a, b);
    assert_eq!(s.worker_count(), 1);
}

#[test]
fn directions_move_the_viewport() {
    let mut s = Server::from_config(config(4, 4, 1)).unwrap();
    s.move_towards(Direction::Top);
    assert_eq!(s.range(), view(-2 * U, -28 * U / 10, 2 * U, 12 * U / 10));
    s.move_towards(Direction::Bottom);
    s.move_towards(Direction::Left);
    assert_eq!(s.range(), view(-28 * U / 10, -2 * U, 12 * U / 10, 2 * U));
}
