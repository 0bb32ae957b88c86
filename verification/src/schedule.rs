//! The fixed schedules a device program is built for: one matmul tile and the
//! work each task folds.
use crate::text::{const_line, push_const};
use crate::WORD_BYTES;
use vstd::arithmetic::power2::{pow2, lemma2_to64};
use vstd::prelude::*;

verus! {

/// The numbers of a matmul tile and the threads that carry it.
pub struct TileView {
    pub rows: nat,
    pub columns: nat,
    pub depth: nat,
    pub thread_rows: nat,
    pub thread_columns: nat,
}

/// A tile a workgroup can carry: positive extents, at least one thread along each
/// side, and threads that divide the rows and the columns.
pub open spec fn tile_valid(t: TileView) -> bool {
    &&& t.rows > 0
    &&& t.columns > 0
    &&& t.depth > 0
    &&& t.thread_rows > 0
    &&& t.thread_columns > 0
    &&& t.rows % t.thread_rows == 0
    &&& t.columns % t.thread_columns == 0
    &&& t.rows <= 0xffff_ffff
    &&& t.columns <= 0xffff_ffff
    &&& t.depth <= 0xffff_ffff
    &&& t.thread_rows <= 0xffff_ffff
    &&& t.thread_columns <= 0xffff_ffff
}

/// The bytes of workgroup memory a tile stages: both operands, double buffered.
pub open spec fn tile_shared_bytes(t: TileView) -> nat {
    (t.rows * t.depth + t.depth * t.columns) * 4 * 2
}

/// A tile of `rows` by `columns` over a depth of `depth`, carried by
/// `thread_rows` by `thread_columns` threads that each hold a block of registers.
#[derive(Clone, Copy, PartialEq, Eq, Debug, Hash, Structural)]
pub struct MatmulTile {
    rows: u32,
    columns: u32,
    depth: u32,
    thread_rows: u32,
    thread_columns: u32,
}

impl View for MatmulTile {
    type V = TileView;

    closed spec fn view(&self) -> TileView {
        TileView {
            rows: self.rows as nat,
            columns: self.columns as nat,
            depth: self.depth as nat,
            thread_rows: self.thread_rows as nat,
            thread_columns: self.thread_columns as nat,
        }
    }
}

impl MatmulTile {
    #[verifier::type_invariant]
    spec fn inv(self) -> bool {
        tile_valid(self@)
    }

    /// The tile a workgroup carries; its threads divide its rows and columns.
    pub fn new(rows: u32, columns: u32, depth: u32, thread_rows: u32, thread_columns: u32) -> (r:
        MatmulTile)
        requires
            rows > 0 && columns > 0 && depth > 0,
            thread_rows > 0 && thread_columns > 0,
            rows % thread_rows == 0,
            columns % thread_columns == 0,
        ensures
            r@ == (TileView {
                rows: rows as nat,
                columns: columns as nat,
                depth: depth as nat,
                thread_rows: thread_rows as nat,
                thread_columns: thread_columns as nat,
            }),
    {
        MatmulTile { rows, columns, depth, thread_rows, thread_columns }
    }

    pub fn rows(self) -> (r: u32)
        ensures
            r == self@.rows,
            tile_valid(self@),
    {
        proof {
            use_type_invariant(&self);
        }
        self.rows
    }

    pub fn columns(self) -> (r: u32)
        ensures
            r == self@.columns,
            tile_valid(self@),
    {
        proof {
            use_type_invariant(&self);
        }
        self.columns
    }

    pub fn depth(self) -> (r: u32)
        ensures
            r == self@.depth,
            tile_valid(self@),
    {
        proof {
            use_type_invariant(&self);
        }
        self.depth
    }

    pub fn thread_rows(self) -> (r: u32)
        ensures
            r == self@.thread_rows,
            tile_valid(self@),
    {
        proof {
            use_type_invariant(&self);
        }
        self.thread_rows
    }

    pub fn thread_columns(self) -> (r: u32)
        ensures
            r == self@.thread_columns,
            tile_valid(self@),
    {
        proof {
            use_type_invariant(&self);
        }
        self.thread_columns
    }

    /// The threads that carry the tile.
    pub fn threads(self) -> (r: u32)
        requires
            self@.thread_rows * self@.thread_columns <= 0xffff_ffff,
        ensures
            r == self@.thread_rows * self@.thread_columns,
    {
        self.thread_rows * self.thread_columns
    }

    /// The rows of registers each thread holds.
    pub fn register_rows(self) -> (r: u32)
        ensures
            r == self@.rows / self@.thread_rows,
            r * self@.thread_rows == self@.rows,
    {
        proof {
            use_type_invariant(&self);
            let t = self@;
            assert((t.rows / t.thread_rows) * t.thread_rows == t.rows) by (nonlinear_arith)
                requires
                    t.thread_rows > 0,
                    t.rows % t.thread_rows == 0,
            ;
        }
        self.rows / self.thread_rows
    }

    /// The columns of registers each thread holds.
    pub fn register_columns(self) -> (r: u32)
        ensures
            r == self@.columns / self@.thread_columns,
            r * self@.thread_columns == self@.columns,
    {
        proof {
            use_type_invariant(&self);
            let t = self@;
            assert((t.columns / t.thread_columns) * t.thread_columns == t.columns)
                by (nonlinear_arith)
                requires
                    t.thread_columns > 0,
                    t.columns % t.thread_columns == 0,
            ;
        }
        self.columns / self.thread_columns
    }

    /// The registers each thread holds.
    pub fn registers(self) -> (r: u32)
        requires
            (self@.rows / self@.thread_rows) * (self@.columns / self@.thread_columns) <= 0xffff_ffff,
        ensures
            r == (self@.rows / self@.thread_rows) * (self@.columns / self@.thread_columns),
    {
        self.register_rows() * self.register_columns()
    }

    /// The multiply-adds of one tile.
    pub fn tile_work(self) -> (r: u64)
        requires
            self@.rows * self@.columns * self@.depth <= 0xffff_ffff_ffff_ffff,
        ensures
            r == self@.rows * self@.columns * self@.depth,
    {
        assert((self.rows as u64) * (self.columns as u64) <= 0xffff_ffff_ffff_ffff) by (nonlinear_arith)
            requires
                self.rows <= 0xffff_ffff,
                self.columns <= 0xffff_ffff,
        ;
        self.rows as u64 * self.columns as u64 * self.depth as u64
    }

    /// The bytes of workgroup memory the tile stages.
    pub fn shared_bytes(self) -> (r: u64)
        requires
            tile_shared_bytes(self@) <= 0xffff_ffff_ffff_ffff,
        ensures
            r == tile_shared_bytes(self@),
    {
        let rows = self.rows as u64;
        let columns = self.columns as u64;
        let depth = self.depth as u64;
        proof {
            let t = self@;
            assert(t.rows * t.depth <= (t.rows * t.depth + t.depth * t.columns) * 4 * 2
                && t.depth * t.columns <= (t.rows * t.depth + t.depth * t.columns) * 4 * 2)
                by (nonlinear_arith);
        }
        (rows * depth + depth * columns) * 4 * 2
    }
}

/// Whether `n` is a power of two.
pub open spec fn power_of_two(n: nat) -> bool {
    exists|k: nat| pow2(k) == n
}

/// What a schedule fixes: its tile, the numbers each task hands out, the
/// numbers each reduction chunk folds, and the softmax rows each task folds.
pub struct ScheduleView {
    pub matmul: MatmulTile,
    pub elements_per_task: nat,
    pub elements_per_reduction: nat,
    pub rows_per_task: nat,
}

/// The threads of a tile.
pub open spec fn tile_threads(t: TileView) -> nat {
    t.thread_rows * t.thread_columns
}

/// A schedule a workgroup runs: a power of two of threads that each get at least
/// one number of a task and of a reduction chunk, and at least one row per task.
pub open spec fn schedule_valid(s: ScheduleView) -> bool {
    &&& tile_threads(s.matmul@) <= 0xffff_ffff
    &&& power_of_two(tile_threads(s.matmul@))
    &&& s.elements_per_task >= tile_threads(s.matmul@)
    &&& s.elements_per_reduction >= tile_threads(s.matmul@)
    &&& s.rows_per_task > 0
    &&& s.elements_per_task <= 0xffff_ffff
    &&& s.elements_per_reduction <= 0xffff_ffff
    &&& s.rows_per_task <= 0xffff_ffff
}

/// The bytes of workgroup memory a schedule claims: its tile's staging and one
/// word of reduction scratch per thread.
pub open spec fn schedule_shared_bytes(s: ScheduleView) -> nat {
    tile_shared_bytes(s.matmul@) + tile_threads(s.matmul@) * 4
}

/// The device declarations of a schedule.
pub open spec fn schedule_text(s: ScheduleView) -> Seq<char> {
    let t = s.matmul@;
    const_line("WORKGROUP_SIZE"@, tile_threads(t)) + const_line("MATMUL_ROW_TILE"@, t.rows)
        + const_line("MATMUL_COL_TILE"@, t.columns) + const_line("MATMUL_DEPTH_TILE"@, t.depth)
        + const_line("MATMUL_REGISTER_ROWS"@, t.rows / t.thread_rows) + const_line(
        "MATMUL_REGISTER_COLUMNS"@,
        t.columns / t.thread_columns,
    ) + const_line("MATMUL_THREAD_ROWS"@, t.thread_rows) + const_line(
        "MATMUL_THREAD_COLUMNS"@,
        t.thread_columns,
    )
}

/// A fixed schedule of one matmul tile and the work each task folds.
#[derive(Clone, Copy, PartialEq, Eq, Debug, Hash, Structural)]
pub struct Schedule {
    matmul: MatmulTile,
    elements_per_task: u32,
    elements_per_reduction: u32,
    rows_per_task: u32,
}

impl View for Schedule {
    type V = ScheduleView;

    closed spec fn view(&self) -> ScheduleView {
        ScheduleView {
            matmul: self.matmul,
            elements_per_task: self.elements_per_task as nat,
            elements_per_reduction: self.elements_per_reduction as nat,
            rows_per_task: self.rows_per_task as nat,
        }
    }
}

impl Schedule {
    #[verifier::type_invariant]
    spec fn inv(self) -> bool {
        schedule_valid(self@)
    }

    /// The schedule of a tile whose threads are a power of two.
    pub fn new(matmul: MatmulTile, elements_per_task: u32, elements_per_reduction: u32, rows_per_task: u32) -> (r: Schedule)
        requires
            schedule_valid(
                ScheduleView {
                    matmul,
                    elements_per_task: elements_per_task as nat,
                    elements_per_reduction: elements_per_reduction as nat,
                    rows_per_task: rows_per_task as nat,
                },
            ),
        ensures
            r@ == (ScheduleView {
                matmul,
                elements_per_task: elements_per_task as nat,
                elements_per_reduction: elements_per_reduction as nat,
                rows_per_task: rows_per_task as nat,
            }),
    {
        Schedule { matmul, elements_per_task, elements_per_reduction, rows_per_task }
    }

    pub fn matmul(self) -> (r: MatmulTile)
        ensures
            r == self@.matmul,
            schedule_valid(self@),
    {
        proof {
            use_type_invariant(&self);
        }
        self.matmul
    }

    /// The threads of a workgroup: those that carry the tile.
    pub fn workgroup(self) -> (r: u32)
        ensures
            r == tile_threads(self@.matmul@),
    {
        proof {
            use_type_invariant(&self);
        }
        self.matmul.threads()
    }

    pub fn elements_per_task(self) -> (r: u32)
        ensures
            r == self@.elements_per_task,
    {
        self.elements_per_task
    }

    pub fn elements_per_reduction(self) -> (r: u32)
        ensures
            r == self@.elements_per_reduction,
    {
        self.elements_per_reduction
    }

    pub fn rows_per_task(self) -> (r: u32)
        ensures
            r == self@.rows_per_task,
    {
        self.rows_per_task
    }

    /// The bytes of workgroup memory the schedule claims.
    pub fn shared_bytes(self) -> (r: u64)
        requires
            schedule_shared_bytes(self@) <= 0xffff_ffff_ffff_ffff,
        ensures
            r == schedule_shared_bytes(self@),
    {
        proof {
            use_type_invariant(&self);
        }
        self.matmul.shared_bytes() + self.workgroup() as u64 * WORD_BYTES
    }

    /// Whether a device of `threads` per workgroup and `shared_bytes` of workgroup
    /// memory runs the schedule.
    pub fn fits(self, threads: u32, shared_bytes: u64) -> (r: bool)
        requires
            schedule_shared_bytes(self@) <= 0xffff_ffff_ffff_ffff,
        ensures
            r == (tile_threads(self@.matmul@) <= threads && schedule_shared_bytes(self@)
                <= shared_bytes),
    {
        self.workgroup() <= threads && self.shared_bytes() <= shared_bytes
    }

    /// The device declarations of the schedule, one `const` per line.
    pub fn declarations(self) -> (r: String)
        ensures
            r@ == schedule_text(self@),
    {
        proof {
            use_type_invariant(&self);
        }
        let matmul = self.matmul;
        let mut out = String::new();
        push_const(&mut out, "WORKGROUP_SIZE", self.workgroup() as u64);
        push_const(&mut out, "MATMUL_ROW_TILE", matmul.rows() as u64);
        push_const(&mut out, "MATMUL_COL_TILE", matmul.columns() as u64);
        push_const(&mut out, "MATMUL_DEPTH_TILE", matmul.depth() as u64);
        push_const(&mut out, "MATMUL_REGISTER_ROWS", matmul.register_rows() as u64);
        push_const(&mut out, "MATMUL_REGISTER_COLUMNS", matmul.register_columns() as u64);
        push_const(&mut out, "MATMUL_THREAD_ROWS", matmul.thread_rows() as u64);
        push_const(&mut out, "MATMUL_THREAD_COLUMNS", matmul.thread_columns() as u64);
        proof {
            assert(out@ =~= schedule_text(self@));
        }
        out
    }
}

fn schedule_of(rows: u32, columns: u32, depth: u32, thread_rows: u32, thread_columns: u32, elements_per_task: u32, elements_per_reduction: u32, rows_per_task: u32, log_threads: Ghost<nat>) -> (r: Schedule)
    requires
        rows > 0 && columns > 0 && depth > 0,
        thread_rows > 0 && thread_columns > 0,
        rows % thread_rows == 0,
        columns % thread_columns == 0,
        log_threads@ <= 31,
        pow2(log_threads@) == thread_rows * thread_columns,
        elements_per_task >= thread_rows * thread_columns,
        elements_per_reduction >= thread_rows * thread_columns,
        rows_per_task > 0,
        rows <= 64 && columns <= 64 && depth <= 64,
    ensures
        r@.matmul@ == (TileView {
            rows: rows as nat,
            columns: columns as nat,
            depth: depth as nat,
            thread_rows: thread_rows as nat,
            thread_columns: thread_columns as nat,
        }),
        r@.elements_per_task == elements_per_task,
        r@.elements_per_reduction == elements_per_reduction,
        r@.rows_per_task == rows_per_task,
{
    let matmul = MatmulTile::new(rows, columns, depth, thread_rows, thread_columns);
    proof {
        lemma2_to64();
        vstd::arithmetic::power2::lemma_pow2_strictly_increases(log_threads@, 32);
        assert(tile_shared_bytes(matmul@) <= 65536) by (nonlinear_arith)
            requires
                matmul@.rows <= 64,
                matmul@.columns <= 64,
                matmul@.depth <= 64,
        ;
    }
    Schedule::new(matmul, elements_per_task, elements_per_reduction, rows_per_task)
}

/// The schedule of workgroups of 64 threads.
pub fn narrow() -> (r: Schedule)
    ensures
        tile_threads(r@.matmul@) == 64,
        r@.matmul@.rows == 16 && r@.matmul@.columns == 16 && r@.matmul@.depth == 16,
        r@.matmul@.thread_rows == 8 && r@.matmul@.thread_columns == 8,
        r@.elements_per_task == 1024 && r@.elements_per_reduction == 4096 && r@.rows_per_task == 8,
{
    proof {
        lemma2_to64();
    }
    schedule_of(16, 16, 16, 8, 8, 1024, 4096, 8, Ghost(6))
}

/// The schedule of workgroups of 128 threads.
pub fn medium() -> (r: Schedule)
    ensures
        tile_threads(r@.matmul@) == 128,
        r@.matmul@.rows == 32 && r@.matmul@.columns == 32 && r@.matmul@.depth == 16,
        r@.matmul@.thread_rows == 16 && r@.matmul@.thread_columns == 8,
        r@.elements_per_task == 2048 && r@.elements_per_reduction == 8192 && r@.rows_per_task == 8,
{
    proof {
        lemma2_to64();
    }
    schedule_of(32, 32, 16, 16, 8, 2048, 8192, 8, Ghost(7))
}

/// The schedule of workgroups of 256 threads.
pub fn wide() -> (r: Schedule)
    ensures
        tile_threads(r@.matmul@) == 256,
        r@.matmul@.rows == 64 && r@.matmul@.columns == 64 && r@.matmul@.depth == 16,
        r@.matmul@.thread_rows == 16 && r@.matmul@.thread_columns == 16,
        r@.elements_per_task == 2048 && r@.elements_per_reduction == 8192 && r@.rows_per_task == 8,
{
    proof {
        lemma2_to64();
    }
    schedule_of(64, 64, 16, 16, 16, 2048, 8192, 8, Ghost(8))
}

/// The schedules a device program is built for, narrowest first.
pub fn schedules() -> (r: Vec<Schedule>)
    ensures
        r@.len() == 3,
        tile_threads(r@[0]@.matmul@) == 64,
        tile_threads(r@[1]@.matmul@) == 128,
        tile_threads(r@[2]@.matmul@) == 256,
{
    vec![narrow(), medium(), wide()]
}

} // verus!
