//! The device profiles a program is built for: a ladder of matmul tiles that
//! share one workgroup, and the tiles a device program carries.
use crate::text::{const_line, decimal, push_const, push_indexed_const};
use vstd::arithmetic::power2::lemma2_to64;
use vstd::prelude::*;

verus! {

/// The numbers of a matmul tile and the threads that carry it.
pub struct TileView {
    pub rows: nat,
    pub columns: nat,
    pub depth: nat,
    pub thread_rows: nat,
    pub thread_columns: nat,
}

/// A tile a workgroup can carry: positive extents, at least one thread along each
/// side, and threads that divide the rows and the columns.
pub open spec fn tile_valid(t: TileView) -> bool {
    &&& t.rows > 0
    &&& t.columns > 0
    &&& t.depth > 0
    &&& t.thread_rows > 0
    &&& t.thread_columns > 0
    &&& t.rows % t.thread_rows == 0
    &&& t.columns % t.thread_columns == 0
    &&& t.rows <= 0xffff_ffff
    &&& t.columns <= 0xffff_ffff
    &&& t.depth <= 0xffff_ffff
    &&& t.thread_rows <= 0xffff_ffff
    &&& t.thread_columns <= 0xffff_ffff
}

/// The bytes of workgroup memory a tile stages: both operands, double buffered.
pub open spec fn tile_shared_bytes(t: TileView) -> nat {
    (t.rows * t.depth + t.depth * t.columns) * 4 * 2
}

/// A tile of `rows` by `columns` over a depth of `depth`, carried by
/// `thread_rows` by `thread_columns` threads that each hold a block of registers.
#[derive(Clone, Copy, PartialEq, Eq, Debug, Hash, Structural)]
pub struct MatmulTile {
    rows: u32,
    columns: u32,
    depth: u32,
    thread_rows: u32,
    thread_columns: u32,
}

impl View for MatmulTile {
    type V = TileView;

    closed spec fn view(&self) -> TileView {
        TileView {
            rows: self.rows as nat,
            columns: self.columns as nat,
            depth: self.depth as nat,
            thread_rows: self.thread_rows as nat,
            thread_columns: self.thread_columns as nat,
        }
    }
}

impl MatmulTile {
    #[verifier::type_invariant]
    spec fn inv(self) -> bool {
        tile_valid(self@)
    }

    /// The tile a workgroup carries; its threads divide its rows and columns.
    pub fn new(rows: u32, columns: u32, depth: u32, thread_rows: u32, thread_columns: u32) -> (r:
        MatmulTile)
        requires
            rows > 0 && columns > 0 && depth > 0,
            thread_rows > 0 && thread_columns > 0,
            rows % thread_rows == 0,
            columns % thread_columns == 0,
        ensures
            r@ == (TileView {
                rows: rows as nat,
                columns: columns as nat,
                depth: depth as nat,
                thread_rows: thread_rows as nat,
                thread_columns: thread_columns as nat,
            }),
    {
        MatmulTile { rows, columns, depth, thread_rows, thread_columns }
    }

    pub fn rows(self) -> (r: u32)
        ensures
            r == self@.rows,
            tile_valid(self@),
    {
        proof {
            use_type_invariant(&self);
        }
        self.rows
    }

    pub fn columns(self) -> (r: u32)
        ensures
            r == self@.columns,
            tile_valid(self@),
    {
        proof {
            use_type_invariant(&self);
        }
        self.columns
    }

    pub fn depth(self) -> (r: u32)
        ensures
            r == self@.depth,
            tile_valid(self@),
    {
        proof {
            use_type_invariant(&self);
        }
        self.depth
    }

    pub fn thread_rows(self) -> (r: u32)
        ensures
            r == self@.thread_rows,
            tile_valid(self@),
    {
        proof {
            use_type_invariant(&self);
        }
        self.thread_rows
    }

    pub fn thread_columns(self) -> (r: u32)
        ensures
            r == self@.thread_columns,
            tile_valid(self@),
    {
        proof {
            use_type_invariant(&self);
        }
        self.thread_columns
    }

    /// The threads that carry the tile.
    pub fn threads(self) -> (r: u32)
        requires
            self@.thread_rows * self@.thread_columns <= 0xffff_ffff,
        ensures
            r == self@.thread_rows * self@.thread_columns,
    {
        self.thread_rows * self.thread_columns
    }

    /// The rows of registers each thread holds.
    pub fn register_rows(self) -> (r: u32)
        ensures
            r == self@.rows / self@.thread_rows,
            r * self@.thread_rows == self@.rows,
    {
        proof {
            use_type_invariant(&self);
            let t = self@;
            assert((t.rows / t.thread_rows) * t.thread_rows == t.rows) by (nonlinear_arith)
                requires
                    t.thread_rows > 0,
                    t.rows % t.thread_rows == 0,
            ;
        }
        self.rows / self.thread_rows
    }

    /// The columns of registers each thread holds.
    pub fn register_columns(self) -> (r: u32)
        ensures
            r == self@.columns / self@.thread_columns,
            r * self@.thread_columns == self@.columns,
    {
        proof {
            use_type_invariant(&self);
            let t = self@;
            assert((t.columns / t.thread_columns) * t.thread_columns == t.columns)
                by (nonlinear_arith)
                requires
                    t.thread_columns > 0,
                    t.columns % t.thread_columns == 0,
            ;
        }
        self.columns / self.thread_columns
    }

    /// The registers each thread holds.
    pub fn registers(self) -> (r: u32)
        requires
            (self@.rows / self@.thread_rows) * (self@.columns / self@.thread_columns) <= 0xffff_ffff,
        ensures
            r == (self@.rows / self@.thread_rows) * (self@.columns / self@.thread_columns),
    {
        self.register_rows() * self.register_columns()
    }

    /// The multiply-adds of one tile.
    pub fn tile_work(self) -> (r: u64)
        requires
            self@.rows * self@.columns * self@.depth <= 0xffff_ffff_ffff_ffff,
        ensures
            r == self@.rows * self@.columns * self@.depth,
    {
        assert((self.rows as u64) * (self.columns as u64) <= 0xffff_ffff_ffff_ffff) by (nonlinear_arith)
            requires
                self.rows <= 0xffff_ffff,
                self.columns <= 0xffff_ffff,
        ;
        self.rows as u64 * self.columns as u64 * self.depth as u64
    }

    /// The bytes of workgroup memory the tile stages.
    pub fn shared_bytes(self) -> (r: u64)
        requires
            tile_shared_bytes(self@) <= 0xffff_ffff_ffff_ffff,
        ensures
            r == tile_shared_bytes(self@),
    {
        let rows = self.rows as u64;
        let columns = self.columns as u64;
        let depth = self.depth as u64;
        proof {
            let t = self@;
            assert(t.rows * t.depth <= (t.rows * t.depth + t.depth * t.columns) * 4 * 2
                && t.depth * t.columns <= (t.rows * t.depth + t.depth * t.columns) * 4 * 2)
                by (nonlinear_arith);
        }
        (rows * depth + depth * columns) * 4 * 2
    }
}

/// The threads of a tile.
pub open spec fn tile_threads(t: TileView) -> nat {
    t.thread_rows * t.thread_columns
}

/// The largest staging among the tiles of a ladder.
pub open spec fn ladder_staging(ladder: Seq<MatmulTile>) -> nat
    decreases ladder.len(),
{
    if ladder.len() == 0 {
        0
    } else {
        let rest = ladder_staging(ladder.drop_last());
        let last = tile_shared_bytes(ladder.last()@);
        if last > rest { last } else { rest }
    }
}

/// The bytes of workgroup memory a profile claims: the staging of its largest
/// tile, two words of reduction scratch per thread, and the word of a claimed task.
pub open spec fn profile_bytes(ladder: Seq<MatmulTile>, workgroup: nat) -> nat {
    ladder_staging(ladder) + 8 * workgroup + 4
}

/// A ladder a profile offers: at least one tile, every tile carried by
/// `workgroup` threads, and byte counts a `u64` holds.
pub open spec fn ladder_valid(ladder: Seq<MatmulTile>, workgroup: nat) -> bool {
    &&& ladder.len() > 0
    &&& workgroup <= 0xffff_ffff
    &&& forall|i: int| 0 <= i < ladder.len() ==> tile_threads(#[trigger] ladder[i]@) == workgroup
    &&& forall|i: int| 0 <= i < ladder.len() ==> tile_shared_bytes(#[trigger] ladder[i]@) <= 0xffff_ffff_ffff_ffff
    &&& profile_bytes(ladder, workgroup) <= 0xffff_ffff_ffff_ffff
}

/// What a profile holds: its workgroup, its ladder and the bytes it claims.
pub struct ProfileView {
    pub workgroup: nat,
    pub ladder: Seq<MatmulTile>,
    pub shared_bytes: nat,
}

/// A ladder of matmul tiles that share one workgroup, and the workgroup memory
/// the device program built for them claims.
#[derive(PartialEq, Eq, Debug, Hash)]
pub struct Profile {
    workgroup: u32,
    ladder: Vec<MatmulTile>,
    shared_bytes: u64,
}

impl View for Profile {
    type V = ProfileView;

    closed spec fn view(&self) -> ProfileView {
        ProfileView {
            workgroup: self.workgroup as nat,
            ladder: self.ladder@,
            shared_bytes: self.shared_bytes as nat,
        }
    }
}

proof fn lemma_staging_bounds(ladder: Seq<MatmulTile>, i: int)
    requires
        0 <= i < ladder.len(),
    ensures
        tile_shared_bytes(ladder[i]@) <= ladder_staging(ladder),
    decreases ladder.len(),
{
    if i < ladder.len() - 1 {
        lemma_staging_bounds(ladder.drop_last(), i);
    }
}

impl Clone for Profile {
    fn clone(&self) -> (r: Profile)
        ensures
            r@ == self@,
    {
        proof {
            use_type_invariant(self);
        }
        let ladder = self.ladder.clone();
        proof {
            assert(ladder@ =~= self.ladder@);
        }
        Profile { workgroup: self.workgroup, ladder, shared_bytes: self.shared_bytes }
    }
}

impl Profile {
    #[verifier::type_invariant]
    spec fn inv(self) -> bool {
        &&& ladder_valid(self@.ladder, self@.workgroup)
        &&& self@.shared_bytes == profile_bytes(self@.ladder, self@.workgroup)
    }

    /// The profile of a ladder whose tiles all share the workgroup of the first.
    pub fn of(ladder: Vec<MatmulTile>) -> (r: Profile)
        requires
            ladder@.len() > 0,
            tile_threads(ladder@[0]@) <= 0xffff_ffff,
            ladder_valid(ladder@, tile_threads(ladder@[0]@)),
        ensures
            r@.workgroup == tile_threads(ladder@[0]@),
            r@.ladder == ladder@,
            r@.shared_bytes == profile_bytes(ladder@, r@.workgroup),
    {
        let count = ladder.len();
        let workgroup = ladder[0].threads();
        let mut staging: u64 = 0;
        let mut index: usize = 0;
        while index < count
            invariant
                count == ladder@.len(),
                index <= count,
                ladder_valid(ladder@, workgroup as nat),
                staging == ladder_staging(ladder@.subrange(0, index as int)),
            decreases count - index,
        {
            let tile = ladder[index];
            proof {
                assert(ladder@.subrange(0, index + 1).drop_last() =~= ladder@.subrange(0, index as int));
                assert(ladder@.subrange(0, index + 1).last() == tile);
            }
            let bytes = tile.shared_bytes();
            if bytes > staging {
                staging = bytes;
            }
            index += 1;
        }
        proof {
            assert(ladder@.subrange(0, count as int) =~= ladder@);
        }
        Profile { workgroup, ladder, shared_bytes: staging + 2 * 4 * workgroup as u64 + 4 }
    }

    pub fn workgroup(&self) -> (r: u32)
        ensures
            r == self@.workgroup,
            ladder_valid(self@.ladder, self@.workgroup),
    {
        proof {
            use_type_invariant(self);
        }
        self.workgroup
    }

    pub fn ladder(&self) -> (r: &[MatmulTile])
        ensures
            r@ == self@.ladder,
            ladder_valid(self@.ladder, self@.workgroup),
    {
        proof {
            use_type_invariant(self);
        }
        self.ladder.as_slice()
    }

    pub fn shared_bytes(&self) -> (r: u64)
        ensures
            r == self@.shared_bytes,
            r == profile_bytes(self@.ladder, self@.workgroup),
    {
        proof {
            use_type_invariant(self);
        }
        self.shared_bytes
    }

    /// Whether a device of `threads` per workgroup and `shared_bytes` of
    /// workgroup memory runs the profile.
    pub fn fits(&self, threads: u32, shared_bytes: u64) -> (r: bool)
        ensures
            r == (self@.workgroup <= threads && self@.shared_bytes <= shared_bytes),
    {
        self.workgroup <= threads && self.shared_bytes <= shared_bytes
    }
}

/// The largest left operand, in numbers, among some tiles.
pub open spec fn left_stage(tiles: Seq<MatmulTile>) -> nat
    decreases tiles.len(),
{
    if tiles.len() == 0 {
        0
    } else {
        let rest = left_stage(tiles.drop_last());
        let last = tiles.last()@.rows * tiles.last()@.depth;
        if last > rest { last } else { rest }
    }
}

/// The largest right operand, in numbers, among some tiles.
pub open spec fn right_stage(tiles: Seq<MatmulTile>) -> nat
    decreases tiles.len(),
{
    if tiles.len() == 0 {
        0
    } else {
        let rest = right_stage(tiles.drop_last());
        let last = tiles.last()@.depth * tiles.last()@.columns;
        if last > rest { last } else { rest }
    }
}

/// The staging buffers a geometry declares hold the operands of every one of
/// its tiles, and no more than the largest: the left stage is the largest
/// rows times depth, the right stage the largest depth times columns.
pub proof fn lemma_stages_hold_every_tile(tiles: Seq<MatmulTile>)
    ensures
        forall|i: int| 0 <= i < tiles.len() ==> (#[trigger] tiles[i])@.rows * tiles[i]@.depth <= left_stage(tiles)
            && tiles[i]@.depth * tiles[i]@.columns <= right_stage(tiles),
        tiles.len() > 0 ==> exists|i: int| 0 <= i < tiles.len() && left_stage(tiles) == (#[trigger] tiles[i])@.rows * tiles[i]@.depth,
        tiles.len() > 0 ==> exists|i: int| 0 <= i < tiles.len() && right_stage(tiles) == (#[trigger] tiles[i])@.depth * tiles[i]@.columns,
    decreases tiles.len(),
{
    if tiles.len() > 0 {
        let p = tiles.drop_last();
        lemma_stages_hold_every_tile(p);
        let n = tiles.len() - 1;
        assert forall|i: int| 0 <= i < tiles.len() implies (#[trigger] tiles[i])@.rows * tiles[i]@.depth <= left_stage(tiles)
            && tiles[i]@.depth * tiles[i]@.columns <= right_stage(tiles) by {
            if i < n {
                assert(tiles[i] == p[i]);
            }
        }
        if p.len() > 0 {
            let a = choose|i: int| 0 <= i < p.len() && left_stage(p) == (#[trigger] p[i])@.rows * p[i]@.depth;
            let b = choose|i: int| 0 <= i < p.len() && right_stage(p) == (#[trigger] p[i])@.depth * p[i]@.columns;
            assert(tiles[a] == p[a] && tiles[b] == p[b]);
            if left_stage(tiles) == left_stage(p) {
                assert(left_stage(tiles) == tiles[a]@.rows * tiles[a]@.depth);
            } else {
                assert(left_stage(tiles) == tiles[n]@.rows * tiles[n]@.depth);
            }
            if right_stage(tiles) == right_stage(p) {
                assert(right_stage(tiles) == tiles[b]@.depth * tiles[b]@.columns);
            } else {
                assert(right_stage(tiles) == tiles[n]@.depth * tiles[n]@.columns);
            }
        } else {
            assert(left_stage(p) == 0 && right_stage(p) == 0);
            assert(tiles[n] == tiles.last());
            if left_stage(tiles) == 0 {
                assert(tiles[n]@.rows * tiles[n]@.depth == 0) by (nonlinear_arith)
                    requires tiles[n]@.rows * tiles[n]@.depth <= left_stage(tiles), left_stage(tiles) == 0;
            }
            if right_stage(tiles) == 0 {
                assert(tiles[n]@.depth * tiles[n]@.columns == 0) by (nonlinear_arith)
                    requires tiles[n]@.depth * tiles[n]@.columns <= right_stage(tiles), right_stage(tiles) == 0;
            }
            assert(left_stage(tiles) == tiles[n]@.rows * tiles[n]@.depth);
            assert(right_stage(tiles) == tiles[n]@.depth * tiles[n]@.columns);
        }
    }
}

/// The declarations of one tile, suffixed by its geometry.
pub open spec fn tile_text(geometry: nat, t: TileView) -> Seq<char> {
    let g = decimal(geometry);
    const_line("MATMUL_ROWS_"@ + g, t.rows) + const_line("MATMUL_COLUMNS_"@ + g, t.columns)
        + const_line("MATMUL_DEPTH_"@ + g, t.depth) + const_line(
        "MATMUL_THREAD_ROWS_"@ + g,
        t.thread_rows,
    ) + const_line("MATMUL_THREAD_COLUMNS_"@ + g, t.thread_columns) + const_line(
        "MATMUL_REGISTER_ROWS_"@ + g,
        t.rows / t.thread_rows,
    ) + const_line("MATMUL_REGISTER_COLUMNS_"@ + g, t.columns / t.thread_columns)
}

/// The declarations of the first `n` tiles.
pub open spec fn tiles_text(tiles: Seq<MatmulTile>, n: nat) -> Seq<char>
    decreases n,
{
    if n == 0 {
        Seq::empty()
    } else {
        tiles_text(tiles, (n - 1) as nat) + tile_text((n - 1) as nat, tiles[n - 1]@)
    }
}

/// The device declarations of a geometry.
pub open spec fn geometry_text(workgroup: nat, tiles: Seq<MatmulTile>) -> Seq<char> {
    if tiles.len() == 0 {
        const_line("WORKGROUP_SIZE"@, workgroup)
    } else {
        const_line("WORKGROUP_SIZE"@, workgroup) + const_line(
            "MATMUL_LEFT_STAGE"@,
            2 * left_stage(tiles),
        ) + const_line("MATMUL_RIGHT_STAGE"@, 2 * right_stage(tiles)) + tiles_text(
            tiles,
            tiles.len(),
        )
    }
}

/// What a geometry holds: the workgroup, the tiles and the largest left operand.
pub struct GeometryView {
    pub workgroup: nat,
    pub tiles: Seq<MatmulTile>,
    pub staged_floats: nat,
}

/// The tiles a device program carries, each named by its position.
#[derive(PartialEq, Eq, Debug)]
pub struct Geometry {
    workgroup: u32,
    tiles: Vec<MatmulTile>,
    staged_floats: u64,
}

impl View for Geometry {
    type V = GeometryView;

    closed spec fn view(&self) -> GeometryView {
        GeometryView {
            workgroup: self.workgroup as nat,
            tiles: self.tiles@,
            staged_floats: self.staged_floats as nat,
        }
    }
}

proof fn lemma_stage_bounds(tiles: Seq<MatmulTile>)
    requires
        forall|i: int| 0 <= i < tiles.len() ==> tile_shared_bytes(#[trigger] tiles[i]@) <= 0xffff_ffff_ffff_ffff,
    ensures
        2 * left_stage(tiles) <= 0xffff_ffff_ffff_ffff,
        2 * right_stage(tiles) <= 0xffff_ffff_ffff_ffff,
    decreases tiles.len(),
{
    if tiles.len() > 0 {
        lemma_stage_bounds(tiles.drop_last());
        let t = tiles.last()@;
        assert(tile_shared_bytes(tiles[tiles.len() - 1]@) <= 0xffff_ffff_ffff_ffff);
        assert(2 * (t.rows * t.depth) <= tile_shared_bytes(t) && 2 * (t.depth * t.columns)
            <= tile_shared_bytes(t)) by (nonlinear_arith);
    }
}

impl Clone for Geometry {
    fn clone(&self) -> (r: Geometry)
        ensures
            r@ == self@,
    {
        proof {
            use_type_invariant(self);
        }
        let tiles = self.tiles.clone();
        proof {
            assert(tiles@ =~= self.tiles@);
        }
        Geometry { workgroup: self.workgroup, tiles, staged_floats: self.staged_floats }
    }
}

impl Geometry {
    #[verifier::type_invariant]
    spec fn inv(self) -> bool {
        &&& forall|i: int| 0 <= i < self@.tiles.len() ==> tile_shared_bytes(#[trigger] self@.tiles[i]@) <= 0xffff_ffff_ffff_ffff
        &&& self@.staged_floats == left_stage(self@.tiles)
    }

    /// The geometry of some tiles of a profile's ladder.
    pub fn of(profile: Profile, tiles: &[MatmulTile]) -> (r: Geometry)
        requires
            forall|i: int| 0 <= i < tiles@.len() ==> profile@.ladder.contains(#[trigger] tiles@[i]),
        ensures
            r@.workgroup == profile@.workgroup,
            r@.tiles == tiles@,
            r@.staged_floats == left_stage(tiles@),
    {
        let workgroup = profile.workgroup();
        let ghost ladder = profile@.ladder;
        let mut staged_floats: u64 = 0;
        let mut kept: Vec<MatmulTile> = Vec::new();
        let mut index: usize = 0;
        while index < tiles.len()
            invariant
                index <= tiles@.len(),
                ladder_valid(ladder, workgroup as nat),
                forall|i: int| 0 <= i < tiles@.len() ==> ladder.contains(#[trigger] tiles@[i]),
                kept@ == tiles@.subrange(0, index as int),
                staged_floats == left_stage(kept@),
                forall|i: int| 0 <= i < kept@.len() ==> tile_shared_bytes(#[trigger] kept@[i]@) <= 0xffff_ffff_ffff_ffff,
            decreases tiles@.len() - index,
        {
            let tile = tiles[index];
            proof {
                assert(ladder.contains(tiles@[index as int]));
                let j = choose|j: int| 0 <= j < ladder.len() && ladder[j] == tile;
                assert(tile_shared_bytes(ladder[j]@) <= 0xffff_ffff_ffff_ffff);
                let t = tile@;
                assert(t.rows * t.depth <= tile_shared_bytes(t)) by (nonlinear_arith);
            }
            let floats = tile.rows() as u64 * tile.depth() as u64;
            let ghost before = kept@;
            kept.push(tile);
            proof {
                assert(kept@.drop_last() =~= before);
            }
            if floats > staged_floats {
                staged_floats = floats;
            }
            index += 1;
            proof {
                assert(kept@ =~= tiles@.subrange(0, index as int));
            }
        }
        proof {
            assert(kept@ =~= tiles@);
        }
        Geometry { workgroup, tiles: kept, staged_floats }
    }

    pub fn workgroup(&self) -> (r: u32)
        ensures
            r == self@.workgroup,
    {
        self.workgroup
    }

    pub fn tiles(&self) -> (r: &[MatmulTile])
        ensures
            r@ == self@.tiles,
    {
        self.tiles.as_slice()
    }

    /// The geometry that names `tile`: the position of its first occurrence.
    pub fn geometry(&self, tile: MatmulTile) -> (r: u32)
        requires
            self@.tiles.contains(tile),
            self@.tiles.len() <= 0xffff_ffff,
        ensures
            r < self@.tiles.len(),
            self@.tiles[r as int] == tile,
            forall|j: int| 0 <= j < r ==> self@.tiles[j] != tile,
    {
        let mut index: usize = 0;
        while index < self.tiles.len()
            invariant
                index <= self@.tiles.len(),
                self@.tiles.len() <= 0xffff_ffff,
                self@.tiles.contains(tile),
                forall|j: int| 0 <= j < index ==> self@.tiles[j] != tile,
            decreases self@.tiles.len() - index,
        {
            if self.tiles[index] == tile {
                return index as u32;
            }
            index += 1;
        }
        proof {
            let j = choose|j: int| 0 <= j < self@.tiles.len() && self@.tiles[j] == tile;
            assert(self@.tiles[j] == tile);
        }
        0
    }

    /// The tile a geometry names.
    pub fn tile(&self, geometry: u32) -> (r: MatmulTile)
        requires
            geometry < self@.tiles.len(),
        ensures
            r == self@.tiles[geometry as int],
    {
        self.tiles[geometry as usize]
    }

    /// The device declarations of the geometry, one `const` per line.
    pub fn declarations(&self) -> (r: String)
        ensures
            r@ == geometry_text(self@.workgroup, self@.tiles),
    {
        proof {
            use_type_invariant(self);
            lemma_stage_bounds(self@.tiles);
        }
        let mut out = String::new();
        push_const(&mut out, "WORKGROUP_SIZE", self.workgroup as u64);
        if self.tiles.len() == 0 {
            return out;
        }
        push_const(&mut out, "MATMUL_LEFT_STAGE", 2 * self.staged_floats);
        let mut staged_columns: u64 = 0;
        let mut index: usize = 0;
        while index < self.tiles.len()
            invariant
                index <= self@.tiles.len(),
                forall|i: int| 0 <= i < self@.tiles.len() ==> tile_shared_bytes(#[trigger] self@.tiles[i]@) <= 0xffff_ffff_ffff_ffff,
                staged_columns == right_stage(self@.tiles.subrange(0, index as int)),
            decreases self@.tiles.len() - index,
        {
            let tile = self.tiles[index];
            proof {
                assert(self@.tiles.subrange(0, index + 1).drop_last() =~= self@.tiles.subrange(0, index as int));
                assert(tile_shared_bytes(self@.tiles[index as int]@) <= 0xffff_ffff_ffff_ffff);
                let t = tile@;
                assert(t.depth * t.columns <= tile_shared_bytes(t)) by (nonlinear_arith);
            }
            let floats = tile.depth() as u64 * tile.columns() as u64;
            if floats > staged_columns {
                staged_columns = floats;
            }
            index += 1;
        }
        proof {
            assert(self@.tiles.subrange(0, self@.tiles.len() as int) =~= self@.tiles);
        }
        push_const(&mut out, "MATMUL_RIGHT_STAGE", 2 * staged_columns);
        let ghost head = out@;
        let mut geometry: usize = 0;
        while geometry < self.tiles.len()
            invariant
                geometry <= self@.tiles.len(),
                out@ == head + tiles_text(self@.tiles, geometry as nat),
            decreases self@.tiles.len() - geometry,
        {
            let tile = self.tiles[geometry];
            push_tile_text(&mut out, geometry as u64, tile);
            proof {
                assert(out@ =~= head + tiles_text(self@.tiles, (geometry + 1) as nat));
            }
            geometry += 1;
        }
        proof {
            assert(out@ =~= geometry_text(self@.workgroup, self@.tiles));
        }
        out
    }
}

fn push_tile_text(out: &mut String, geometry: u64, tile: MatmulTile)
    ensures
        final(out)@ == old(out)@ + tile_text(geometry as nat, tile@),
{
    let g = geometry;
    push_indexed_const(out, "MATMUL_ROWS_", g, tile.rows() as u64);
    push_indexed_const(out, "MATMUL_COLUMNS_", g, tile.columns() as u64);
    push_indexed_const(out, "MATMUL_DEPTH_", g, tile.depth() as u64);
    push_indexed_const(out, "MATMUL_THREAD_ROWS_", g, tile.thread_rows() as u64);
    push_indexed_const(out, "MATMUL_THREAD_COLUMNS_", g, tile.thread_columns() as u64);
    push_indexed_const(out, "MATMUL_REGISTER_ROWS_", g, tile.register_rows() as u64);
    push_indexed_const(out, "MATMUL_REGISTER_COLUMNS_", g, tile.register_columns() as u64);
    proof {
        assert(out@ =~= old(out)@ + tile_text(geometry as nat, tile@));
    }
}

fn tile_of(rows: u32, columns: u32, depth: u32, thread_rows: u32, thread_columns: u32) -> (r: MatmulTile)
    requires
        0 < rows <= 64 && 0 < columns <= 64 && 0 < depth <= 64,
        0 < thread_rows <= 16 && 0 < thread_columns <= 16,
        rows % thread_rows == 0,
        columns % thread_columns == 0,
    ensures
        r@ == (TileView {
            rows: rows as nat,
            columns: columns as nat,
            depth: depth as nat,
            thread_rows: thread_rows as nat,
            thread_columns: thread_columns as nat,
        }),
        tile_shared_bytes(r@) <= 65536,
        tile_threads(r@) <= 256,
{
    let r = MatmulTile::new(rows, columns, depth, thread_rows, thread_columns);
    proof {
        let t = r@;
        assert(tile_shared_bytes(t) <= 65536) by (nonlinear_arith)
            requires
                t.rows <= 64,
                t.columns <= 64,
                t.depth <= 64,
        ;
        assert(tile_threads(t) <= 256) by (nonlinear_arith)
            requires
                t.thread_rows <= 16,
                t.thread_columns <= 16,
        ;
    }
    r
}

proof fn lemma_small_ladder(ladder: Seq<MatmulTile>, workgroup: nat)
    requires
        workgroup <= 256,
        forall|i: int| 0 <= i < ladder.len() ==> tile_shared_bytes(#[trigger] ladder[i]@) <= 65536,
    ensures
        profile_bytes(ladder, workgroup) <= 65536 + 8 * 256 + 4,
    decreases ladder.len(),
{
    if ladder.len() > 0 {
        assert forall|i: int| 0 <= i < ladder.drop_last().len() implies tile_shared_bytes(
            #[trigger] ladder.drop_last()[i]@,
        ) <= 65536 by {
            assert(ladder.drop_last()[i] == ladder[i]);
        }
        lemma_small_ladder(ladder.drop_last(), workgroup);
        assert(tile_shared_bytes(ladder[ladder.len() - 1]@) <= 65536);
    }
}

/// The registers of all threads of a tile cover the tile: each of the
/// threads holds a block of registers, and the blocks tile the rows and the
/// columns.
pub proof fn lemma_registers_cover(t: TileView)
    requires
        tile_valid(t),
    ensures
        (t.rows / t.thread_rows) * (t.columns / t.thread_columns) * (t.thread_rows * t.thread_columns) == t.rows * t.columns,
{
    let rr = t.rows / t.thread_rows;
    let rc = t.columns / t.thread_columns;
    assert(rr * t.thread_rows == t.rows) by (nonlinear_arith)
        requires
            t.thread_rows > 0,
            t.rows % t.thread_rows == 0,
            rr == t.rows / t.thread_rows,
    ;
    assert(rc * t.thread_columns == t.columns) by (nonlinear_arith)
        requires
            t.thread_columns > 0,
            t.columns % t.thread_columns == 0,
            rc == t.columns / t.thread_columns,
    ;
    assert(rr * rc * (t.thread_rows * t.thread_columns) == (rr * t.thread_rows) * (rc * t.thread_columns)) by (nonlinear_arith);
}

/// The view of a tile of `rows` by `columns` over `depth`, carried by
/// `thread_rows` by `thread_columns` threads.
pub open spec fn tile_view(rows: nat, columns: nat, depth: nat, thread_rows: nat, thread_columns: nat) -> TileView {
    TileView { rows, columns, depth, thread_rows, thread_columns }
}

/// The views of the tiles of a ladder, in order.
pub open spec fn ladder_views(ladder: Seq<MatmulTile>) -> Seq<TileView> {
    ladder.map_values(|t: MatmulTile| t@)
}

/// The profile of workgroups of 64 threads.
pub fn narrow() -> (r: Profile)
    ensures
        r@.workgroup == 64,
        r@.ladder.len() == 2,
        ladder_views(r@.ladder) == seq![tile_view(16, 16, 16, 8, 8), tile_view(32, 32, 16, 8, 8)],
        r@.shared_bytes == 8708,
{
    let ladder = vec![tile_of(16, 16, 16, 8, 8), tile_of(32, 32, 16, 8, 8)];
    proof {
        lemma_small_ladder(ladder@, 64);
        assert(ladder@.drop_last().drop_last() =~= Seq::<MatmulTile>::empty());
        assert(ladder_staging(ladder@.drop_last().drop_last()) == 0);
        assert(ladder@.drop_last().last() == ladder@[0]);
        assert(tile_shared_bytes(ladder@[0]@) == 4096);
        assert(ladder_staging(ladder@.drop_last()) == 4096);
        assert(ladder_staging(ladder@) == 8192);
        assert(ladder_views(ladder@) =~= seq![tile_view(16, 16, 16, 8, 8), tile_view(32, 32, 16, 8, 8)]);
    }
    Profile::of(ladder)
}

/// The profile of workgroups of 128 threads.
pub fn medium() -> (r: Profile)
    ensures
        r@.workgroup == 128,
        r@.ladder.len() == 2,
        ladder_views(r@.ladder) == seq![tile_view(16, 16, 16, 16, 8), tile_view(32, 32, 16, 16, 8)],
        r@.shared_bytes == 9220,
{
    let ladder = vec![tile_of(16, 16, 16, 16, 8), tile_of(32, 32, 16, 16, 8)];
    proof {
        lemma_small_ladder(ladder@, 128);
        assert(ladder@.drop_last().drop_last() =~= Seq::<MatmulTile>::empty());
        assert(ladder_staging(ladder@.drop_last().drop_last()) == 0);
        assert(ladder@.drop_last().last() == ladder@[0]);
        assert(tile_shared_bytes(ladder@[0]@) == 4096);
        assert(ladder_staging(ladder@.drop_last()) == 4096);
        assert(ladder_staging(ladder@) == 8192);
        assert(ladder_views(ladder@) =~= seq![tile_view(16, 16, 16, 16, 8), tile_view(32, 32, 16, 16, 8)]);
    }
    Profile::of(ladder)
}

/// The profile of workgroups of 256 threads.
pub fn wide() -> (r: Profile)
    ensures
        r@.workgroup == 256,
        r@.ladder.len() == 3,
        ladder_views(r@.ladder) == seq![tile_view(16, 16, 16, 16, 16), tile_view(32, 32, 16, 16, 16), tile_view(64, 64, 16, 16, 16)],
        r@.shared_bytes == 18436,
{
    let ladder = vec![
        tile_of(16, 16, 16, 16, 16),
        tile_of(32, 32, 16, 16, 16),
        tile_of(64, 64, 16, 16, 16),
    ];
    proof {
        lemma_small_ladder(ladder@, 256);
        assert(ladder@.drop_last().drop_last().drop_last() =~= Seq::<MatmulTile>::empty());
        assert(ladder_staging(ladder@.drop_last().drop_last().drop_last()) == 0);
        assert(ladder@.drop_last().drop_last().last() == ladder@[0]);
        assert(ladder@.drop_last().last() == ladder@[1]);
        assert(tile_shared_bytes(ladder@[0]@) == 4096);
        assert(ladder_staging(ladder@.drop_last().drop_last()) == 4096);
        assert(ladder_staging(ladder@.drop_last()) == 8192);
        assert(ladder_staging(ladder@) == 16384);
        assert(ladder_views(ladder@) =~= seq![tile_view(16, 16, 16, 16, 16), tile_view(32, 32, 16, 16, 16), tile_view(64, 64, 16, 16, 16)]);
    }
    Profile::of(ladder)
}

/// Whether `r` is the first position of `tiles` that holds `t`.
pub open spec fn first_position(tiles: Seq<MatmulTile>, t: MatmulTile, r: int) -> bool {
    &&& 0 <= r < tiles.len()
    &&& tiles[r] == t
    &&& forall|j: int| 0 <= j < r ==> tiles[j] != t
}

proof fn lemma_first_below(tiles: Seq<MatmulTile>, t: MatmulTile, k: int)
    requires
        0 <= k < tiles.len(),
        tiles[k] == t,
    ensures
        exists|r: int| first_position(tiles, t, r),
    decreases k,
{
    if exists|j: int| 0 <= j < k && tiles[j] == t {
        let j = choose|j: int| 0 <= j < k && tiles[j] == t;
        lemma_first_below(tiles, t, j);
    } else {
        assert(first_position(tiles, t, k));
    }
}

/// A tile a geometry carries has exactly one first position: the one
/// `geometry` names it by, and the one `tile` gives it back from.
pub proof fn lemma_geometry_round_trip(g: Geometry, t: MatmulTile)
    requires
        g@.tiles.contains(t),
    ensures
        exists|r: int| first_position(g@.tiles, t, r),
        forall|a: int, b: int| first_position(g@.tiles, t, a) && first_position(g@.tiles, t, b) ==> a == b,
{
    let tiles = g@.tiles;
    let k = choose|k: int| 0 <= k < tiles.len() && tiles[k] == t;
    lemma_first_below(tiles, t, k);
    assert forall|a: int, b: int| first_position(tiles, t, a) && first_position(tiles, t, b) implies a == b by {
        if a < b {
            assert(tiles[a] != t);
        } else if b < a {
            assert(tiles[b] != t);
        }
    }
}

/// The profiles a device program is built for, narrowest first.
pub fn profiles() -> (r: Vec<Profile>)
    ensures
        r@.len() == 3,
        r@[0]@.workgroup == 64,
        r@[1]@.workgroup == 128,
        r@[2]@.workgroup == 256,
{
    vec![narrow(), medium(), wide()]
}

/// The bytes a profile claims cover the staging of every tile it offers, its
/// reduction scratch and its claimed task.
pub proof fn lemma_profile_covers_every_tile(p: Profile, i: int)
    requires
        0 <= i < p@.ladder.len(),
    ensures
        tile_shared_bytes(p@.ladder[i]@) + 8 * p@.workgroup + 4 <= profile_bytes(p@.ladder, p@.workgroup),
{
    lemma_staging_bounds(p@.ladder, i);
}

} // verus!
