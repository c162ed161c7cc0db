//! The coordinator's state: viewport, tile queue, fractal selection and worker
//! registry, with the rules that dispatch tiles to workers.

use vstd::prelude::*;

use crate::cli::Direction;
use crate::error::FraktError;
use crate::models::{
    Complex, FractalDescriptor, FragmentRequest, FragmentResult, FragmentTask, IteratedSinZ, Julia,
    Mandelbrot, NewtonRaphsonZ3, NewtonRaphsonZ4, PixelIntensity, Point, Range, U8Data,
    UNITS_PER_ONE,
};
use crate::payload::{decode_pixels, pixels_of, SIGNATURE_LEN};
use crate::registry::{fallback_worker_name, random_uuid_text, Endpoint, Registry, Worker};
use crate::tiles::{
    bounded, lemma_plan_distinct, plan_tiles, planned_tiles, valid_grid, Tile, COORD_LIMIT,
};

verus! {

/// Iterations asked of every task.
pub const MAX_ITERATION: u32 = 256;

/// Smallest extent, in fixed-point units, that a zoom may leave on an axis.
pub const MIN_EXTENT: i64 = 65536;

/// A pan moves the viewport by this fraction of its extent.
pub const PAN_DIVISOR: i64 = 5;

/// Default number of splits per axis.
pub const DEFAULT_TILES: u16 = 4;

/// Settings of a coordinator.
#[derive(Debug)]
pub struct ServerConfig {
    pub address: String,
    pub port: u16,
    pub width: u16,
    pub height: u16,
    pub tiles: u16,
    pub graphics: bool,
    pub portal: bool,
}

/// A viewport the coordinator can hold: within bounds, and no thinner than
/// `MIN_EXTENT` on either axis.
pub open spec fn view_ok(r: Range) -> bool {
    bounded(r) && r.max.x - r.min.x >= MIN_EXTENT && r.max.y - r.min.y >= MIN_EXTENT
}

/// The viewport a coordinator starts with: `(-2, -2)..(2, 2)`.
pub open spec fn initial_view() -> Range {
    Range {
        min: Point { x: (-2 * UNITS_PER_ONE) as i64, y: (-2 * UNITS_PER_ONE) as i64 },
        max: Point { x: (2 * UNITS_PER_ONE) as i64, y: (2 * UNITS_PER_ONE) as i64 },
    }
}

/// Whether `r` moved by `(dx, dy)` stays within the coordinate bounds.
pub open spec fn shift_fits(r: Range, dx: int, dy: int) -> bool {
    -COORD_LIMIT <= r.min.x + dx && r.max.x + dx <= COORD_LIMIT && -COORD_LIMIT <= r.min.y + dy
        && r.max.y + dy <= COORD_LIMIT
}

/// `r` moved by `(dx, dy)` where that stays within bounds; otherwise `r`.
pub open spec fn pan(r: Range, dx: int, dy: int) -> Range {
    if shift_fits(r, dx, dy) {
        Range {
            min: Point { x: (r.min.x + dx) as i64, y: (r.min.y + dy) as i64 },
            max: Point { x: (r.max.x + dx) as i64, y: (r.max.y + dy) as i64 },
        }
    } else {
        r
    }
}

pub open spec fn step_x(r: Range) -> int {
    (r.max.x - r.min.x) / PAN_DIVISOR as int
}

pub open spec fn step_y(r: Range) -> int {
    (r.max.y - r.min.y) / PAN_DIVISOR as int
}

pub open spec fn panned_right(r: Range) -> Range {
    pan(r, step_x(r), 0)
}

pub open spec fn panned_left(r: Range) -> Range {
    pan(r, -step_x(r), 0)
}

pub open spec fn panned_down(r: Range) -> Range {
    pan(r, 0, step_y(r))
}

pub open spec fn panned_up(r: Range) -> Range {
    pan(r, 0, -step_y(r))
}

/// The half-extents of `r` scaled by `num / den` around its centre, where the
/// result stays within bounds and no thinner than `MIN_EXTENT`; otherwise `r`.
pub open spec fn zoomed(r: Range, num: int, den: int) -> Range {
    let hx = (r.max.x - r.min.x) / 2;
    let hy = (r.max.y - r.min.y) / 2;
    let cx = r.min.x + hx;
    let cy = r.min.y + hy;
    let nx = hx * num / den;
    let ny = hy * num / den;
    if 2 * nx >= MIN_EXTENT && 2 * ny >= MIN_EXTENT && -COORD_LIMIT <= cx - nx && cx + nx
        <= COORD_LIMIT && -COORD_LIMIT <= cy - ny && cy + ny <= COORD_LIMIT {
        Range {
            min: Point { x: (cx - nx) as i64, y: (cy - ny) as i64 },
            max: Point { x: (cx + nx) as i64, y: (cy + ny) as i64 },
        }
    } else {
        r
    }
}

/// The task that wraps `tile` with fractal `f`.
pub open spec fn task_for(tile: Tile, f: FractalDescriptor) -> FragmentTask {
    FragmentTask {
        id: U8Data { offset: 0, count: SIGNATURE_LEN as u32 },
        fractal: f,
        max_iteration: MAX_ITERATION,
        resolution: tile.resolution,
        range: tile.range,
    }
}

/// The worker that a request registers.
pub open spec fn worker_of(request: FragmentRequest, config: &ServerConfig) -> Worker {
    Worker {
        name: request.worker_name,
        maximal_work_load: request.maximal_work_load,
        address: config.address,
        port: config.port,
    }
}

/// The coordinator's state.
#[derive(Debug)]
pub struct Server {
    config: ServerConfig,
    range: Range,
    tiles: Vec<Tile>,
    fractals: Vec<FractalDescriptor>,
    current_fractal: usize,
    workers: Registry,
}

impl Server {
    pub closed spec fn wf(&self) -> bool {
        &&& view_ok(self.range)
        &&& valid_grid(self.config.width as int, self.config.height as int, self.config.tiles as int)
        &&& self.fractals@.len() >= 1
        &&& self.current_fractal < self.fractals@.len()
        &&& self.workers.wf()
        &&& forall|i: int| 0 <= i < self.tiles@.len() ==> #[trigger] self.tiles@[i].resolution.nx >= 1
    }

    /// The current viewport.
    pub closed spec fn view(&self) -> Range {
        self.range
    }

    /// The tiles waiting to be dispatched, front first.
    pub closed spec fn pending(&self) -> Seq<Tile> {
        self.tiles@
    }

    /// The fractals to cycle through.
    pub closed spec fn fractals(&self) -> Seq<FractalDescriptor> {
        self.fractals@
    }

    /// Index of the selected fractal.
    pub closed spec fn selected(&self) -> int {
        self.current_fractal as int
    }

    /// The selected fractal.
    pub closed spec fn fractal(&self) -> FractalDescriptor {
        self.fractals@[self.current_fractal as int]
    }

    /// The registered workers by endpoint.
    pub closed spec fn registry(&self) -> Map<Endpoint, Worker> {
        self.workers.view()
    }

    pub closed spec fn settings(&self) -> &ServerConfig {
        &self.config
    }

    /// The full grid of tiles over the current viewport.
    pub open spec fn plan(&self) -> Seq<Tile> {
        planned_tiles(
            self.view(),
            self.settings().width as int,
            self.settings().height as int,
            self.settings().tiles as int,
        )
    }

    /// A coordinator for a `width × height` canvas, cut four times per axis,
    /// listening on `address:port`.
    pub fn new(address: String, port: u16, width: u16, height: u16) -> (r: Server)
        requires
            valid_grid(width as int, height as int, DEFAULT_TILES as int),
        ensures
            r.wf(),
            r.view() == initial_view(),
            r.selected() == 0,
            r.fractal() == FractalDescriptor::Mandelbrot(Mandelbrot {}),
            r.pending() == r.plan(),
            r.registry() == Map::<Endpoint, Worker>::empty(),
            r.settings().address@ == address@,
            r.settings().port == port,
            r.settings().width == width,
            r.settings().height == height,
            r.settings().tiles == DEFAULT_TILES,
    {
        let config = ServerConfig {
            address,
            port,
            width,
            height,
            tiles: DEFAULT_TILES,
            graphics: true,
            portal: false,
        };
        Server::build(config)
    }

    /// A coordinator with the given settings; a configuration error where the
    /// canvas cannot be cut `tiles` times per axis into tiles of at least one
    /// pixel.
    pub fn from_config(config: ServerConfig) -> (r: Result<Server, FraktError>)
        ensures
            !valid_grid(config.width as int, config.height as int, config.tiles as int) ==> r
                == Err::<Server, FraktError>(FraktError::Config),
            valid_grid(config.width as int, config.height as int, config.tiles as int) ==> (r matches Ok(
                s,
            ) && s.wf() && s.view() == initial_view() && s.selected() == 0 && s.pending()
                == s.plan() && s.registry() == Map::<Endpoint, Worker>::empty() && *s.settings()
                == config),
    {
        if config.tiles < 1 || config.tiles > config.width || config.tiles > config.height {
            return Err(FraktError::Config);
        }
        Ok(Server::build(config))
    }

    fn build(config: ServerConfig) -> (r: Server)
        requires
            valid_grid(config.width as int, config.height as int, config.tiles as int),
        ensures
            r.wf(),
            r.view() == initial_view(),
            r.selected() == 0,
            r.fractal() == FractalDescriptor::Mandelbrot(Mandelbrot {}),
            r.pending() == r.plan(),
            r.registry() == Map::<Endpoint, Worker>::empty(),
            *r.settings() == config,
    {
        let range = Range {
            min: Point { x: -2 * UNITS_PER_ONE, y: -2 * UNITS_PER_ONE },
            max: Point { x: 2 * UNITS_PER_ONE, y: 2 * UNITS_PER_ONE },
        };
        let mut fractals: Vec<FractalDescriptor> = Vec::new();
        fractals.push(FractalDescriptor::Mandelbrot(Mandelbrot {}));
        fractals.push(
            FractalDescriptor::Julia(
                Julia {
                    c: Complex::new(-800_000_000_000, 156_000_000_000),
                    divergence_threshold_square: 4 * UNITS_PER_ONE,
                },
            ),
        );
        fractals.push(
            FractalDescriptor::IteratedSinZ(
                IteratedSinZ { c: Complex::new(UNITS_PER_ONE, 300_000_000_000) },
            ),
        );
        fractals.push(FractalDescriptor::NewtonRaphsonZ3(NewtonRaphsonZ3::new()));
        fractals.push(FractalDescriptor::NewtonRaphsonZ4(NewtonRaphsonZ4::new()));
        let tiles = plan_tiles(&range, config.width, config.height, config.tiles);
        proof {
            lemma_plan_resolutions(range, config.width as int, config.height as int, config.tiles as int);
        }
        Server { config, range, tiles, fractals, current_fractal: 0, workers: Registry::new() }
    }

    /// Empties the tile queue and refills it with the grid over the current
    /// viewport.
    pub fn regenerate_tiles(&mut self)
        requires
            old(self).wf(),
        ensures
            final(self).wf(),
            final(self).pending() == final(self).plan(),
            final(self).view() == old(self).view(),
            final(self).fractals() == old(self).fractals(),
            final(self).selected() == old(self).selected(),
            final(self).registry() == old(self).registry(),
            final(self).settings() == old(self).settings(),
    {
        self.tiles = plan_tiles(&self.range, self.config.width, self.config.height, self.config.tiles);
        proof {
            lemma_plan_resolutions(self.range, self.config.width as int, self.config.height as int, self.config.tiles as int);
        }
    }

    /// Takes the tile at the front of the queue, if any.
    pub fn dequeue_task(&mut self) -> (r: Option<Tile>)
        requires
            old(self).wf(),
        ensures
            final(self).wf(),
            old(self).pending().len() == 0 ==> r == None::<Tile> && final(self).pending() == old(self).pending(),
            old(self).pending().len() > 0 ==> r == Some(old(self).pending()[0]) && final(self).pending() == old(self).pending().drop_first(),
            final(self).view() == old(self).view(),
            final(self).fractals() == old(self).fractals(),
            final(self).selected() == old(self).selected(),
            final(self).registry() == old(self).registry(),
            final(self).settings() == old(self).settings(),
    {
        if self.tiles.len() == 0 {
            None
        } else {
            let t = self.tiles.remove(0);
            assert(self.tiles@ =~= old(self).tiles@.drop_first());
            Some(t)
        }
    }

    /// Puts `tile` at the back of the queue.
    pub fn enqueue_task(&mut self, tile: Tile)
        requires
            old(self).wf(),
            tile.resolution.nx >= 1,
        ensures
            final(self).wf(),
            final(self).pending() == old(self).pending().push(tile),
            final(self).view() == old(self).view(),
            final(self).fractals() == old(self).fractals(),
            final(self).selected() == old(self).selected(),
            final(self).registry() == old(self).registry(),
            final(self).settings() == old(self).settings(),
    {
        self.tiles.push(tile);
    }

    /// Takes the tile at the front of the queue and wraps it into a task for
    /// the selected fractal; `None` where the queue is empty.
    pub fn create_fragment_task(&mut self) -> (r: Option<FragmentTask>)
        requires
            old(self).wf(),
        ensures
            final(self).wf(),
            old(self).pending().len() == 0 ==> r == None::<FragmentTask> && final(self).pending()
                == old(self).pending(),
            old(self).pending().len() > 0 ==> r == Some(task_for(old(self).pending()[0], old(self).fractal()))
                && final(self).pending() == old(self).pending().drop_first(),
            final(self).view() == old(self).view(),
            final(self).fractals() == old(self).fractals(),
            final(self).selected() == old(self).selected(),
            final(self).registry() == old(self).registry(),
            final(self).settings() == old(self).settings(),
    {
        match self.dequeue_task() {
            Some(tile) => Some(
                FragmentTask {
                    id: U8Data { offset: 0, count: SIGNATURE_LEN as u32 },
                    fractal: self.fractals[self.current_fractal],
                    max_iteration: MAX_ITERATION,
                    resolution: tile.resolution,
                    range: tile.range,
                },
            ),
            None => None,
        }
    }

    fn pan_by(&mut self, dx: i64, dy: i64)
        requires
            old(self).wf(),
            -COORD_LIMIT <= dx <= COORD_LIMIT,
            -COORD_LIMIT <= dy <= COORD_LIMIT,
        ensures
            final(self).wf(),
            final(self).view() == pan(old(self).view(), dx as int, dy as int),
            final(self).pending() == final(self).plan(),
            final(self).fractals() == old(self).fractals(),
            final(self).selected() == old(self).selected(),
            final(self).registry() == old(self).registry(),
            final(self).settings() == old(self).settings(),
    {
        let r = self.range;
        if -COORD_LIMIT <= r.min.x + dx && r.max.x + dx <= COORD_LIMIT && -COORD_LIMIT <= r.min.y
            + dy && r.max.y + dy <= COORD_LIMIT {
            self.range = Range {
                min: Point { x: r.min.x + dx, y: r.min.y + dy },
                max: Point { x: r.max.x + dx, y: r.max.y + dy },
            };
        }
        self.regenerate_tiles();
    }

    /// Moves the viewport right by a fifth of its width, where that stays
    /// within bounds, and regenerates the tiles.
    pub fn move_right(&mut self)
        requires
            old(self).wf(),
        ensures
            final(self).wf(),
            final(self).view() == panned_right(old(self).view()),
            final(self).pending() == final(self).plan(),
            final(self).fractals() == old(self).fractals(),
            final(self).selected() == old(self).selected(),
            final(self).registry() == old(self).registry(),
            final(self).settings() == old(self).settings(),
    {
        let step = (self.range.max.x - self.range.min.x) / PAN_DIVISOR;
        self.pan_by(step, 0);
    }

    /// Moves the viewport left by a fifth of its width, where that stays
    /// within bounds, and regenerates the tiles.
    pub fn move_left(&mut self)
        requires
            old(self).wf(),
        ensures
            final(self).wf(),
            final(self).view() == panned_left(old(self).view()),
            final(self).pending() == final(self).plan(),
            final(self).fractals() == old(self).fractals(),
            final(self).selected() == old(self).selected(),
            final(self).registry() == old(self).registry(),
            final(self).settings() == old(self).settings(),
    {
        let step = (self.range.max.x - self.range.min.x) / PAN_DIVISOR;
        self.pan_by(-step, 0);
    }

    /// Moves the viewport down (towards larger `y`) by a fifth of its height,
    /// where that stays within bounds, and regenerates the tiles.
    pub fn move_down(&mut self)
        requires
            old(self).wf(),
        ensures
            final(self).wf(),
            final(self).view() == panned_down(old(self).view()),
            final(self).pending() == final(self).plan(),
            final(self).fractals() == old(self).fractals(),
            final(self).selected() == old(self).selected(),
            final(self).registry() == old(self).registry(),
            final(self).settings() == old(self).settings(),
    {
        let step = (self.range.max.y - self.range.min.y) / PAN_DIVISOR;
        self.pan_by(0, step);
    }

    /// Moves the viewport up (towards smaller `y`) by a fifth of its height,
    /// where that stays within bounds, and regenerates the tiles.
    pub fn move_up(&mut self)
        requires
            old(self).wf(),
        ensures
            final(self).wf(),
            final(self).view() == panned_up(old(self).view()),
            final(self).pending() == final(self).plan(),
            final(self).fractals() == old(self).fractals(),
            final(self).selected() == old(self).selected(),
            final(self).registry() == old(self).registry(),
            final(self).settings() == old(self).settings(),
    {
        let step = (self.range.max.y - self.range.min.y) / PAN_DIVISOR;
        self.pan_by(0, -step);
    }

    /// Scales the half-extents of the viewport by `num / den` around its
    /// centre (below one zooms in), where the result stays within bounds and
    /// no thinner than `MIN_EXTENT`, and regenerates the tiles.
    pub fn zoom(&mut self, num: u32, den: u32)
        requires
            old(self).wf(),
            den >= 1,
        ensures
            final(self).wf(),
            final(self).view() == zoomed(old(self).view(), num as int, den as int),
            final(self).pending() == final(self).plan(),
            final(self).fractals() == old(self).fractals(),
            final(self).selected() == old(self).selected(),
            final(self).registry() == old(self).registry(),
            final(self).settings() == old(self).settings(),
    {
        let r = self.range;
        let hx: i128 = ((r.max.x - r.min.x) / 2) as i128;
        let hy: i128 = ((r.max.y - r.min.y) / 2) as i128;
        let cx: i128 = r.min.x as i128 + hx;
        let cy: i128 = r.min.y as i128 + hy;
        assert(hx * num <= 1_000_000_000_000_000_000 * 0xffff_ffff) by (nonlinear_arith)
            requires
                0 <= hx <= 1_000_000_000_000_000_000,
                num <= 0xffff_ffff,
        ;
        assert(hy * num <= 1_000_000_000_000_000_000 * 0xffff_ffff) by (nonlinear_arith)
            requires
                0 <= hy <= 1_000_000_000_000_000_000,
                num <= 0xffff_ffff,
        ;
        let nx: i128 = ((hx as u128) * (num as u128) / (den as u128)) as i128;
        let ny: i128 = ((hy as u128) * (num as u128) / (den as u128)) as i128;
        let lim = COORD_LIMIT as i128;
        let min_ext = MIN_EXTENT as i128;
        if 2 * nx >= min_ext && 2 * ny >= min_ext && -lim <= cx - nx && cx + nx <= lim && -lim
            <= cy - ny && cy + ny <= lim {
            self.range = Range {
                min: Point { x: (cx - nx) as i64, y: (cy - ny) as i64 },
                max: Point { x: (cx + nx) as i64, y: (cy + ny) as i64 },
            };
        }
        self.regenerate_tiles();
    }

    /// Selects the next fractal, wrapping around, and regenerates the tiles.
    pub fn cycle_fractal(&mut self)
        requires
            old(self).wf(),
        ensures
            final(self).wf(),
            final(self).selected() == (old(self).selected() + 1) % (old(self).fractals().len() as int),
            final(self).pending() == final(self).plan(),
            final(self).view() == old(self).view(),
            final(self).fractals() == old(self).fractals(),
            final(self).registry() == old(self).registry(),
            final(self).settings() == old(self).settings(),
    {
        let n = self.fractals.len();
        self.current_fractal = (self.current_fractal + 1) % n;
        self.regenerate_tiles();
    }

    /// Registers `worker` under `endpoint`; a later registration under the same
    /// endpoint replaces it.
    pub fn register_worker(&mut self, endpoint: Endpoint, worker: Worker)
        requires
            old(self).wf(),
        ensures
            final(self).wf(),
            final(self).registry() == old(self).registry().insert(endpoint, worker),
            final(self).pending() == old(self).pending(),
            final(self).view() == old(self).view(),
            final(self).fractals() == old(self).fractals(),
            final(self).selected() == old(self).selected(),
            final(self).settings() == old(self).settings(),
    {
        self.workers.register(endpoint, worker);
    }

    /// The worker registered under `endpoint`, if any.
    pub fn get_worker(&self, endpoint: &Endpoint) -> (r: Option<&Worker>)
        requires
            self.wf(),
        ensures
            match r {
                Some(w) => self.registry().contains_key(*endpoint) && *w == self.registry()[*endpoint],
                None => !self.registry().contains_key(*endpoint),
            },
    {
        self.workers.get(endpoint)
    }

    /// Serves a worker's request: registers the worker under its endpoint,
    /// then hands out the task for the tile at the front of the queue,
    /// regenerating the queue first where it is empty.
    pub fn process_fragment_request(&mut self, request: FragmentRequest, endpoint: Endpoint) -> (r:
        FragmentTask)
        requires
            old(self).wf(),
        ensures
            final(self).wf(),
            final(self).registry() == old(self).registry().insert(
                endpoint,
                worker_of(request, old(self).settings()),
            ),
            old(self).pending().len() > 0 ==> r == task_for(old(self).pending()[0], old(self).fractal())
                && final(self).pending() == old(self).pending().drop_first(),
            old(self).pending().len() == 0 ==> r == task_for(old(self).plan()[0], old(self).fractal())
                && final(self).pending() == old(self).plan().drop_first(),
            final(self).view() == old(self).view(),
            final(self).fractals() == old(self).fractals(),
            final(self).selected() == old(self).selected(),
            final(self).settings() == old(self).settings(),
    {
        let worker = Worker::new(
            request.worker_name,
            request.maximal_work_load,
            self.config.address.clone(),
            self.config.port,
        );
        self.register_worker(endpoint, worker);
        match self.create_fragment_task() {
            Some(task) => task,
            None => {
                self.regenerate_tiles();
                proof {
                    crate::tiles::lemma_plan_partitions(
                        self.range,
                        self.config.width as int,
                        self.config.height as int,
                        self.config.tiles as int,
                    );
                    assert(self.config.tiles * self.config.tiles >= 1) by (nonlinear_arith)
                        requires
                            self.config.tiles >= 1,
                    ;
                }
                match self.create_fragment_task() {
                    Some(task) => task,
                    None => vstd::pervasive::unreached(),
                }
            },
        }
    }

    /// The name of the worker behind `endpoint`: its registered name, or
    /// `worker-` and a fresh random identifier where none is registered.
    pub fn worker_name(&self, endpoint: &Endpoint) -> (r: String)
        requires
            self.wf(),
        ensures
            self.registry().contains_key(*endpoint) ==> r@ == self.registry()[*endpoint].name@,
            !self.registry().contains_key(*endpoint) ==> r@.len() == 43 && r@.subrange(0, 7)
                == "worker-"@,
    {
        match self.get_worker(endpoint) {
            Some(w) => w.name.clone(),
            None => {
                let id = random_uuid_text();
                let name = fallback_worker_name(id.as_str());
                proof {
                    reveal_strlit("worker-");
                    assert(name@.subrange(0, 7) =~= "worker-"@);
                }
                name
            },
        }
    }

    /// Accepts a computed tile from `endpoint`: decodes its pixels from
    /// `data` (a protocol error where the pixel offset lies past the end or the
    /// rest is not a whole number of pixels) and names the producing worker.
    pub fn process_fragment_result(&self, result: &FragmentResult, data: &[u8], endpoint: &Endpoint) -> (r:
        Result<(Vec<PixelIntensity>, String), FraktError>)
        requires
            self.wf(),
        ensures
            result.pixels.offset > data@.len() ==> r == Err::<(Vec<PixelIntensity>, String), FraktError>(
                FraktError::Protocol,
            ),
            result.pixels.offset <= data@.len() && (data@.len() - result.pixels.offset) % 8 != 0
                ==> r == Err::<(Vec<PixelIntensity>, String), FraktError>(FraktError::Protocol),
            result.pixels.offset <= data@.len() && (data@.len() - result.pixels.offset) % 8 == 0
                ==> (r matches Ok((pixels, name)) && pixels@ == pixels_of(
                data@.subrange(result.pixels.offset as int, data@.len() as int),
            ) && (self.registry().contains_key(*endpoint) ==> name@ == self.registry()[*endpoint].name@)
                && (!self.registry().contains_key(*endpoint) ==> name@.len() == 43 && name@.subrange(0, 7)
                == "worker-"@)),
    {
        let pixels = match decode_pixels(data, result.pixels.offset) {
            Ok(p) => p,
            Err(e) => {
                return Err(e);
            },
        };
        let name = self.worker_name(endpoint);
        Ok((pixels, name))
    }

    /// Serves a request from the portal: the task for the tile at the front of
    /// the queue, whose tile then goes to the back of the queue; `None` where
    /// the queue is empty.
    pub fn process_portal_fragment_request(&mut self) -> (r: Option<FragmentTask>)
        requires
            old(self).wf(),
        ensures
            final(self).wf(),
            old(self).pending().len() == 0 ==> r == None::<FragmentTask> && final(self).pending()
                == old(self).pending(),
            old(self).pending().len() > 0 ==> r == Some(task_for(old(self).pending()[0], old(self).fractal()))
                && final(self).pending() == old(self).pending().drop_first().push(old(self).pending()[0]),
            final(self).view() == old(self).view(),
            final(self).fractals() == old(self).fractals(),
            final(self).selected() == old(self).selected(),
            final(self).registry() == old(self).registry(),
            final(self).settings() == old(self).settings(),
    {
        match self.dequeue_task() {
            Some(tile) => {
                self.enqueue_task(tile);
                Some(
                    FragmentTask {
                        id: U8Data { offset: 0, count: SIGNATURE_LEN as u32 },
                        fractal: self.fractals[self.current_fractal],
                        max_iteration: MAX_ITERATION,
                        resolution: tile.resolution,
                        range: tile.range,
                    },
                )
            },
            None => None,
        }
    }

    /// Moves the viewport one step towards `direction` (top is smaller `y`)
    /// and regenerates the tiles.
    pub fn move_towards(&mut self, direction: Direction)
        requires
            old(self).wf(),
        ensures
            final(self).wf(),
            final(self).view() == match direction {
                Direction::Top => panned_up(old(self).view()),
                Direction::Right => panned_right(old(self).view()),
                Direction::Bottom => panned_down(old(self).view()),
                Direction::Left => panned_left(old(self).view()),
            },
            final(self).pending() == final(self).plan(),
            final(self).fractals() == old(self).fractals(),
            final(self).selected() == old(self).selected(),
            final(self).registry() == old(self).registry(),
            final(self).settings() == old(self).settings(),
    {
        match direction {
            Direction::Top => self.move_up(),
            Direction::Right => self.move_right(),
            Direction::Bottom => self.move_down(),
            Direction::Left => self.move_left(),
        }
    }

    /// The current viewport.
    pub fn range(&self) -> (r: Range)
        ensures
            r == self.view(),
    {
        self.range
    }

    /// The tiles waiting to be dispatched, front first.
    pub fn pending_tiles(&self) -> (r: &Vec<Tile>)
        ensures
            r@ == self.pending(),
    {
        &self.tiles
    }

    /// The selected fractal.
    pub fn current_fractal(&self) -> (r: FractalDescriptor)
        requires
            self.wf(),
        ensures
            r == self.fractal(),
    {
        self.fractals[self.current_fractal]
    }

    /// The settings the coordinator runs with.
    pub fn config(&self) -> (r: &ServerConfig)
        ensures
            r == self.settings(),
    {
        &self.config
    }

    /// Number of registered workers.
    pub fn worker_count(&self) -> (r: usize)
        requires
            self.wf(),
        ensures
            r == self.registry().dom().len(),
    {
        self.workers.len()
    }
}

/// Right then left, left then right, down then up and up then down each
/// return the viewport to where it was, wherever the first move stayed within
/// bounds.
pub proof fn lemma_pan_inverse(r: Range)
    requires
        view_ok(r),
    ensures
        shift_fits(r, step_x(r), 0) ==> panned_left(panned_right(r)) == r,
        shift_fits(r, -step_x(r), 0) ==> panned_right(panned_left(r)) == r,
        shift_fits(r, 0, step_y(r)) ==> panned_up(panned_down(r)) == r,
        shift_fits(r, 0, -step_y(r)) ==> panned_down(panned_up(r)) == r,
{
}

/// Once the tiles are regenerated, the queue holds `tiles²` pairwise distinct
/// tiles, and the tasks made from them for any one fractal are pairwise
/// distinct too; `create_fragment_task` hands them out front first, one per
/// call, and returns `None` once they are gone.
pub proof fn lemma_fresh_queue(s: &Server, f: FractalDescriptor)
    requires
        s.wf(),
        s.pending() == s.plan(),
    ensures
        s.pending().len() == s.settings().tiles * s.settings().tiles,
        s.pending().no_duplicates(),
        forall|i: int, j: int|
            0 <= i < s.pending().len() && 0 <= j < s.pending().len() && i != j ==> task_for(
                #[trigger] s.pending()[i],
                f,
            ) != task_for(#[trigger] s.pending()[j], f),
{
    let t = s.settings().tiles as int;
    lemma_plan_distinct(s.view(), s.settings().width as int, s.settings().height as int, t);
    assert forall|i: int, j: int|
        0 <= i < s.pending().len() && 0 <= j < s.pending().len() && i != j implies task_for(
        #[trigger] s.pending()[i],
        f,
    ) != task_for(#[trigger] s.pending()[j], f) by {
        let a = s.pending()[i];
        let b = s.pending()[j];
        assert(a != b);
        if task_for(a, f) == task_for(b, f) {
            assert(a.range == b.range && a.resolution == b.resolution);
        }
    }
}

proof fn lemma_plan_resolutions(view: Range, w: int, h: int, t: int)
    requires
        bounded(view),
        valid_grid(w, h, t),
    ensures
        forall|i: int|
            0 <= i < planned_tiles(view, w, h, t).len() ==> #[trigger] planned_tiles(view, w, h, t)[i].resolution.nx >= 1,
{
    crate::tiles::lemma_plan_partitions(view, w, h, t);
    assert forall|i: int|
        0 <= i < planned_tiles(view, w, h, t).len() implies #[trigger] planned_tiles(view, w, h, t)[i].resolution.nx >= 1 by {
        crate::tiles::lemma_tile_resolution(view, w, h, t, i);
    }
}

} // verus!
