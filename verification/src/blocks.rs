//! A fixed-size, palette-compressed block storage.

use vstd::hash_map::StringHashMap;
use vstd::prelude::*;

verus! {

/// A cuboid of blocks. Every cell holds the palette id of its block type.
pub struct Blocks {
    palette: Vec<String>,
    palette_map: StringHashMap<u32>,
    indices: Vec<u32>,
    size_x: u32,
    size_y: u32,
    size_z: u32,
}

/// The mathematical content of a [`Blocks`].
pub struct BlocksView {
    pub size_x: u32,
    pub size_y: u32,
    pub size_z: u32,
    /// The block type names; the index of a name is its palette id.
    pub palette: Seq<Seq<char>>,
    /// The palette id of every cell, the cell `(x, y, z)` at `index_of(x, y, z)`.
    pub indices: Seq<u32>,
}

/// The palette with the name in it: unchanged where it has the name, else
/// with the name as its last entry.
pub open spec fn palette_with(palette: Seq<Seq<char>>, name: Seq<char>) -> Seq<Seq<char>> {
    if palette.contains(name) {
        palette
    } else {
        palette.push(name)
    }
}

/// The names of a list of strings.
pub open spec fn names_view(names: Seq<String>) -> Seq<Seq<char>> {
    Seq::new(names.len(), |i: int| names[i]@)
}

impl BlocksView {
    /// The number of cells.
    pub open spec fn volume(self) -> nat {
        (self.size_x * self.size_y * self.size_z) as nat
    }

    /// Whether the position lies inside the cuboid.
    pub open spec fn in_bounds(self, x: u32, y: u32, z: u32) -> bool {
        x < self.size_x && y < self.size_y && z < self.size_z
    }

    /// Where the cell of a position stands in `indices`.
    pub open spec fn index_of(self, x: u32, y: u32, z: u32) -> int {
        x * self.size_y * self.size_z + y * self.size_z + z
    }

    /// The position whose cell stands at a place in `indices`.
    pub open spec fn position_at(self, index: int) -> (u32, u32, u32) {
        (
            ((index / (self.size_z as int)) / (self.size_y as int)) as u32,
            ((index / (self.size_z as int)) % (self.size_y as int)) as u32,
            (index % (self.size_z as int)) as u32,
        )
    }

    /// Where the cell of a position stands in the block data of a document:
    /// x runs fastest, then z, then y.
    pub open spec fn wire_of(self, x: u32, y: u32, z: u32) -> int {
        (y * self.size_z + z) * self.size_x + x
    }

    /// The position whose cell stands at a place in the block data.
    pub open spec fn position_on_wire(self, wire: int) -> (u32, u32, u32) {
        (
            (wire % (self.size_x as int)) as u32,
            ((wire / (self.size_x as int)) / (self.size_z as int)) as u32,
            ((wire / (self.size_x as int)) % (self.size_z as int)) as u32,
        )
    }

    /// The palette id stored at a position.
    pub open spec fn id_at(self, x: u32, y: u32, z: u32) -> u32 {
        self.indices[self.index_of(x, y, z)]
    }

    /// The block type name at a position.
    pub open spec fn name_at(self, x: u32, y: u32, z: u32) -> Seq<char> {
        self.palette[self.id_at(x, y, z) as int]
    }

    /// What holds of every block storage: one cell for each position, every
    /// cell a valid palette id, and a palette of at least one name in which
    /// no name occurs twice and every index is a `u32`.
    pub open spec fn valid(self) -> bool {
        &&& self.indices.len() == self.volume()
        &&& 1 <= self.palette.len() <= 0x1_0000_0000
        &&& self.palette.no_duplicates()
        &&& forall|i: int| 0 <= i < self.indices.len() ==> self.indices[i] < self.palette.len()
    }

    /// The view after the palette id of a position is set.
    pub open spec fn with_id_at(self, x: u32, y: u32, z: u32, id: u32) -> BlocksView {
        BlocksView { indices: self.indices.update(self.index_of(x, y, z), id), ..self }
    }

    /// The view after a name is given a place in the palette.
    pub open spec fn with_name(self, name: Seq<char>) -> BlocksView {
        BlocksView { palette: palette_with(self.palette, name), ..self }
    }
}

/// Three digits make one number: where `(a, b, c)` stands among all triples
/// below `(ra, rb, rc)`, the last digit counted fastest. The digits are read
/// back from the number by division.
pub proof fn lemma_digits_compose(a: int, b: int, c: int, ra: int, rb: int, rc: int)
    requires
        0 <= a < ra,
        0 <= b < rb,
        0 <= c < rc,
    ensures
        0 <= a * rb + b < ra * rb,
        0 <= (a * rb + b) * rc + c < ra * rb * rc,
        ((a * rb + b) * rc + c) % rc == c,
        (((a * rb + b) * rc + c) / rc) % rb == b,
        (((a * rb + b) * rc + c) / rc) / rb == a,
        a * rb * rc + b * rc + c == (a * rb + b) * rc + c,
{
    let row = a * rb + b;
    assert(0 <= a * rb) by (nonlinear_arith)
        requires
            0 <= a,
            0 <= rb,
    ;
    assert(row < ra * rb) by (nonlinear_arith)
        requires
            row == a * rb + b,
            0 <= a < ra,
            0 <= b < rb,
    ;
    assert(0 <= row * rc) by (nonlinear_arith)
        requires
            0 <= row,
            0 <= rc,
    ;
    assert(row * rc + c < ra * rb * rc) by (nonlinear_arith)
        requires
            0 <= row < ra * rb,
            0 <= c < rc,
    ;
    assert(a * rb * rc + b * rc == row * rc) by (nonlinear_arith)
        requires
            row == a * rb + b,
    ;
    vstd::arithmetic::div_mod::lemma_fundamental_div_mod_converse(row * rc + c, rc, row, c);
    vstd::arithmetic::div_mod::lemma_fundamental_div_mod_converse(row, rb, a, b);
}

/// One number makes three digits: every number below `ra * rb * rc` is the
/// place of exactly the triple that division reads from it.
pub proof fn lemma_digits_decompose(n: int, ra: int, rb: int, rc: int)
    requires
        0 <= ra,
        0 <= rb,
        0 <= rc,
        0 <= n < ra * rb * rc,
    ensures
        0 <= (n / rc) / rb < ra,
        0 <= (n / rc) % rb < rb,
        0 <= n % rc < rc,
        (((n / rc) / rb) * rb + (n / rc) % rb) * rc + n % rc == n,
{
    assert(rc > 0 && rb > 0) by (nonlinear_arith)
        requires
            0 <= ra,
            0 <= rb,
            0 <= rc,
            0 < ra * rb * rc,
    ;
    let row = n / rc;
    vstd::arithmetic::div_mod::lemma_fundamental_div_mod(n, rc);
    vstd::arithmetic::div_mod::lemma_mod_bound(n, rc);
    vstd::arithmetic::div_mod::lemma_fundamental_div_mod(row, rb);
    vstd::arithmetic::div_mod::lemma_mod_bound(row, rb);
    assert(0 <= row < ra * rb) by (nonlinear_arith)
        requires
            n == rc * row + n % rc,
            0 <= n % rc < rc,
            0 <= n < ra * rb * rc,
            0 <= ra,
            0 <= rb,
    ;
    assert(0 <= row / rb < ra) by (nonlinear_arith)
        requires
            row == rb * (row / rb) + row % rb,
            0 <= row % rb < rb,
            0 <= row < ra * rb,
    ;
    assert(((row / rb) * rb + row % rb) * rc + n % rc == n) by (nonlinear_arith)
        requires
            row == rb * (row / rb) + row % rb,
            n == rc * row + n % rc,
    ;
}

/// The cell of a position inside a cuboid stands inside `indices`, and the
/// position is read back from its place.
pub proof fn lemma_index_in_range(view: BlocksView, x: u32, y: u32, z: u32)
    requires
        view.in_bounds(x, y, z),
    ensures
        0 <= view.index_of(x, y, z) < view.volume(),
        view.index_of(x, y, z) == (x * view.size_y + y) * view.size_z + z,
        0 <= x * view.size_y + y < view.size_x * view.size_y,
        view.position_at(view.index_of(x, y, z)) == (x, y, z),
{
    lemma_digits_compose(
        x as int,
        y as int,
        z as int,
        view.size_x as int,
        view.size_y as int,
        view.size_z as int,
    );
}

/// Two positions inside a cuboid whose cells stand at the same place are the
/// same position.
pub proof fn lemma_index_injective(
    view: BlocksView,
    x1: u32,
    y1: u32,
    z1: u32,
    x2: u32,
    y2: u32,
    z2: u32,
)
    requires
        view.in_bounds(x1, y1, z1),
        view.in_bounds(x2, y2, z2),
        view.index_of(x1, y1, z1) == view.index_of(x2, y2, z2),
    ensures
        x1 == x2,
        y1 == y2,
        z1 == z2,
{
    lemma_index_in_range(view, x1, y1, z1);
    lemma_index_in_range(view, x2, y2, z2);
}

/// Every place in `indices` is the place of a position inside the cuboid.
pub proof fn lemma_index_onto(view: BlocksView, index: int)
    requires
        0 <= index < view.volume(),
    ensures
        view.in_bounds(
            view.position_at(index).0,
            view.position_at(index).1,
            view.position_at(index).2,
        ),
        view.index_of(
            view.position_at(index).0,
            view.position_at(index).1,
            view.position_at(index).2,
        ) == index,
{
    lemma_digits_decompose(
        index,
        view.size_x as int,
        view.size_y as int,
        view.size_z as int,
    );
    let (x, y, z) = view.position_at(index);
    lemma_digits_compose(
        x as int,
        y as int,
        z as int,
        view.size_x as int,
        view.size_y as int,
        view.size_z as int,
    );
}

/// The cell of a position inside a cuboid has a place in the order of the
/// block data, and the position is read back from that place.
pub proof fn lemma_wire_in_range(view: BlocksView, x: u32, y: u32, z: u32)
    requires
        view.in_bounds(x, y, z),
    ensures
        0 <= view.wire_of(x, y, z) < view.volume(),
        0 <= y * view.size_z + z < view.size_y * view.size_z,
        view.position_on_wire(view.wire_of(x, y, z)) == (x, y, z),
{
    lemma_digits_compose(
        y as int,
        z as int,
        x as int,
        view.size_y as int,
        view.size_z as int,
        view.size_x as int,
    );
    assert(view.size_y * view.size_z * view.size_x == view.size_x * view.size_y * view.size_z)
        by (nonlinear_arith);
}

/// Every place in the order of the block data is the place of a position
/// inside the cuboid.
pub proof fn lemma_wire_onto(view: BlocksView, wire: int)
    requires
        0 <= wire < view.volume(),
    ensures
        view.in_bounds(
            view.position_on_wire(wire).0,
            view.position_on_wire(wire).1,
            view.position_on_wire(wire).2,
        ),
        view.wire_of(
            view.position_on_wire(wire).0,
            view.position_on_wire(wire).1,
            view.position_on_wire(wire).2,
        ) == wire,
{
    assert(view.size_y * view.size_z * view.size_x == view.size_x * view.size_y * view.size_z)
        by (nonlinear_arith);
    lemma_digits_decompose(
        wire,
        view.size_y as int,
        view.size_z as int,
        view.size_x as int,
    );
}

/// The last position in the order of the block data.
pub proof fn lemma_last_on_wire(shape: BlocksView, wire: int)
    requires
        0 <= wire,
        wire + 1 == shape.volume(),
    ensures
        shape.position_on_wire(wire) == (
            (shape.size_x - 1) as u32,
            (shape.size_y - 1) as u32,
            (shape.size_z - 1) as u32,
        ),
{
    lemma_wire_onto(shape, wire);
    let sx = shape.size_x as int;
    let sy = shape.size_y as int;
    let sz = shape.size_z as int;
    lemma_wire_in_range(shape, (sx - 1) as u32, (sy - 1) as u32, (sz - 1) as u32);
    assert(((sy - 1) * sz + (sz - 1)) * sx + (sx - 1) == sx * sy * sz - 1) by (nonlinear_arith);
}

/// The position after a position in the order of the block data: x runs
/// fastest, then z, then y.
pub proof fn lemma_next_on_wire(shape: BlocksView, wire: int)
    requires
        0 <= wire,
        wire + 1 < shape.volume(),
    ensures
        shape.position_on_wire(wire + 1) == ({
            let (x, y, z) = shape.position_on_wire(wire);
            if x + 1 < shape.size_x {
                ((x + 1) as u32, y, z)
            } else if z + 1 < shape.size_z {
                (0u32, y, (z + 1) as u32)
            } else {
                (0u32, (y + 1) as u32, 0u32)
            }
        }),
{
    lemma_wire_onto(shape, wire);
    lemma_wire_onto(shape, wire + 1);
    let (x, y, z) = shape.position_on_wire(wire);
    let sx = shape.size_x as int;
    let sz = shape.size_z as int;
    if x + 1 < shape.size_x {
        lemma_wire_in_range(shape, (x + 1) as u32, y, z);
    } else if z + 1 < shape.size_z {
        assert((y * sz + (z + 1)) * sx + 0 == (y * sz + z) * sx + x + 1) by (nonlinear_arith)
            requires
                x + 1 == sx,
        ;
        lemma_wire_in_range(shape, 0, y, (z + 1) as u32);
    } else {
        assert(((y + 1) * sz + 0) * sx + 0 == (y * sz + z) * sx + x + 1) by (nonlinear_arith)
            requires
                x + 1 == sx,
                z + 1 == sz,
        ;
        assert(y + 1 < shape.size_y) by {
            assert((y + 1) * sz * sx < shape.size_y * sz * sx ==> y + 1 < shape.size_y)
                by (nonlinear_arith)
                requires
                    sz > 0,
                    sx > 0,
            ;
            assert(((y + 1) * sz + 0) * sx + 0 == (y + 1) * sz * sx) by (nonlinear_arith);
            assert(shape.size_y * sz * sx == shape.size_x * shape.size_y * shape.size_z)
                by (nonlinear_arith)
                requires
                    sx == shape.size_x,
                    sz == shape.size_z,
            ;
        }
        lemma_wire_in_range(shape, 0, (y + 1) as u32, 0);
    }
}

/// Setting the id of a position and then getting the id of a position gives
/// the id that was set at the position where it was set, and at every other
/// position the id that was there before.
pub proof fn lemma_set_then_get(
    view: BlocksView,
    x: u32,
    y: u32,
    z: u32,
    id: u32,
    other_x: u32,
    other_y: u32,
    other_z: u32,
)
    requires
        view.valid(),
        view.in_bounds(x, y, z),
        view.in_bounds(other_x, other_y, other_z),
    ensures
        view.with_id_at(x, y, z, id).id_at(other_x, other_y, other_z) == if (x, y, z) == (
            other_x,
            other_y,
            other_z,
        ) {
            id
        } else {
            view.id_at(other_x, other_y, other_z)
        },
{
    lemma_index_in_range(view, x, y, z);
    lemma_index_in_range(view, other_x, other_y, other_z);
    if view.index_of(x, y, z) == view.index_of(other_x, other_y, other_z) {
        lemma_index_injective(view, x, y, z, other_x, other_y, other_z);
    }
}

/// Palette determinism: a name that is given a place in the palette twice
/// has the same palette id both times, and the second time changes nothing.
/// The names that were in the palette keep their ids.
pub proof fn lemma_same_name_twice(view: BlocksView, name: Seq<char>, first: u32, second: u32)
    requires
        view.valid(),
        view.palette.contains(name) || view.palette.len() <= u32::MAX,
        first < view.with_name(name).palette.len(),
        view.with_name(name).palette[first as int] == name,
        second < view.with_name(name).with_name(name).palette.len(),
        view.with_name(name).with_name(name).palette[second as int] == name,
    ensures
        view.with_name(name).valid(),
        view.with_name(name).with_name(name) == view.with_name(name),
        second == first,
        forall|id: int|
            0 <= id < view.palette.len() ==> view.with_name(name).palette[id] == view.palette[id],
{
    let once = view.with_name(name).palette;
    if !view.palette.contains(name) {
        assert(once[view.palette.len() as int] == name);
    }
    assert(once.contains(name));
}

impl View for Blocks {
    type V = BlocksView;

    closed spec fn view(&self) -> BlocksView {
        BlocksView {
            size_x: self.size_x,
            size_y: self.size_y,
            size_z: self.size_z,
            palette: names_view(self.palette@),
            indices: self.indices@,
        }
    }
}

impl Blocks {
    /// The invariant of the storage: its content is valid, and the name
    /// index agrees with the palette.
    pub closed spec fn wf(&self) -> bool {
        &&& self@.valid()
        &&& forall|name: Seq<char>|
            self.palette_map@.contains_key(name) <==> self@.palette.contains(name)
        &&& forall|i: int|
            0 <= i < self@.palette.len() ==> self.palette_map@[#[trigger] self@.palette[i]] == i
    }

    /// The content of a well-formed storage is valid.
    pub proof fn lemma_wf_valid(&self)
        requires
            self.wf(),
        ensures
            self@.valid(),
    {
    }

    /// A storage of the given size in which every cell holds `initial_block`,
    /// the only name in the palette.
    pub fn new(size_x: u32, size_y: u32, size_z: u32, initial_block: &str) -> (blocks: Self)
        requires
            size_x * size_y * size_z <= usize::MAX,
        ensures
            blocks.wf(),
            blocks@ == (BlocksView {
                size_x,
                size_y,
                size_z,
                palette: seq![initial_block@],
                indices: Seq::new((size_x * size_y * size_z) as nat, |i: int| 0u32),
            }),
    {
        let cells: usize = if size_x == 0 || size_y == 0 || size_z == 0 {
            assert(size_x * size_y * size_z == 0) by (nonlinear_arith)
                requires
                    size_x == 0 || size_y == 0 || size_z == 0,
            ;
            0
        } else {
            assert(size_x * size_y <= size_x * size_y * size_z) by (nonlinear_arith)
                requires
                    size_x >= 1,
                    size_y >= 1,
                    size_z >= 1,
            ;
            (size_x as usize) * (size_y as usize) * (size_z as usize)
        };
        let mut palette: Vec<String> = Vec::new();
        palette.push(initial_block.to_owned());
        let mut palette_map: StringHashMap<u32> = StringHashMap::new();
        palette_map.insert(initial_block.to_owned(), 0);
        let blocks = Blocks {
            palette,
            palette_map,
            indices: vec![0u32; cells],
            size_x,
            size_y,
            size_z,
        };
        proof {
            assert(blocks@.palette =~= seq![initial_block@]);
            assert(blocks@.indices =~= Seq::new(
                (size_x * size_y * size_z) as nat,
                |i: int| 0u32,
            ));
            assert forall|name: Seq<char>|
                blocks.palette_map@.contains_key(name) <==> blocks@.palette.contains(name) by {
                if name == initial_block@ {
                    assert(blocks@.palette[0] == name);
                }
            }
        }
        blocks
    }

    /// The size of this container: x, y, z.
    pub fn size(&self) -> (size: (u32, u32, u32))
        ensures
            size == (self@.size_x, self@.size_y, self@.size_z),
    {
        (self.size_x, self.size_y, self.size_z)
    }

    /// The number of names in the palette.
    pub fn palette_len(&self) -> (len: usize)
        ensures
            len == self@.palette.len(),
    {
        self.palette.len()
    }

    /// Whether a position lies inside the container.
    pub fn bounds_check(&self, pos_x: u32, pos_y: u32, pos_z: u32) -> (inside: bool)
        ensures
            inside == self@.in_bounds(pos_x, pos_y, pos_z),
    {
        pos_x < self.size_x && pos_y < self.size_y && pos_z < self.size_z
    }

    /// Where the cell of a position stands in the index array.
    pub fn block_index_at(&self, pos_x: u32, pos_y: u32, pos_z: u32) -> (index: usize)
        requires
            self.wf(),
            self@.in_bounds(pos_x, pos_y, pos_z),
        ensures
            index == self@.index_of(pos_x, pos_y, pos_z),
            index < self@.indices.len(),
    {
        proof {
            lemma_index_in_range(self@, pos_x, pos_y, pos_z);
            let row = pos_x * self.size_y + pos_y;
            assert(self@.index_of(pos_x, pos_y, pos_z) == row * self.size_z + pos_z);
            assert(self@.index_of(pos_x, pos_y, pos_z) < self.indices.len());
            assert(row <= row * self.size_z) by (nonlinear_arith)
                requires
                    row >= 0,
                    self.size_z >= 1,
            ;
            assert(pos_x * self.size_y <= row);
        }
        let row: usize = (pos_x as usize) * (self.size_y as usize) + (pos_y as usize);
        row * (self.size_z as usize) + (pos_z as usize)
    }

    /// The palette id of the block at a position.
    pub fn get_block_id_at(&self, pos_x: u32, pos_y: u32, pos_z: u32) -> (id: u32)
        requires
            self.wf(),
            self@.in_bounds(pos_x, pos_y, pos_z),
        ensures
            id == self@.id_at(pos_x, pos_y, pos_z),
            id < self@.palette.len(),
    {
        self.indices[self.block_index_at(pos_x, pos_y, pos_z)]
    }

    /// The name of the block at a position.
    pub fn get_block_at(&self, pos_x: u32, pos_y: u32, pos_z: u32) -> (name: &str)
        requires
            self.wf(),
            self@.in_bounds(pos_x, pos_y, pos_z),
        ensures
            name@ == self@.name_at(pos_x, pos_y, pos_z),
    {
        let id = self.get_block_id_at(pos_x, pos_y, pos_z);
        self.palette[id as usize].as_str()
    }

    /// The palette id of a block name. A name that the palette does not have
    /// yet becomes its last entry.
    pub fn get_block_id_for(&mut self, block: &str) -> (id: u32)
        requires
            old(self).wf(),
            old(self)@.palette.contains(block@) || old(self)@.palette.len() <= u32::MAX,
        ensures
            final(self).wf(),
            final(self)@ == old(self)@.with_name(block@),
            id < final(self)@.palette.len(),
            final(self)@.palette[id as int] == block@,
    {
        match self.palette_map.get(block) {
            Some(id) => {
                let id = *id;
                proof {
                    assert(self.palette_map@.contains_key(block@));
                    assert(self@.palette.contains(block@));
                    let at = self@.palette.index_of(block@);
                    assert(self.palette_map@[self@.palette[at]] == at);
                }
                id
            },
            None => {
                let next_id = self.palette.len() as u32;
                self.palette.push(block.to_owned());
                self.palette_map.insert(block.to_owned(), next_id);
                proof {
                    let before = old(self)@.palette;
                    assert(self@.palette =~= before.push(block@));
                    assert forall|name: Seq<char>|
                        self.palette_map@.contains_key(name) <==> self@.palette.contains(name) by {
                        if name == block@ {
                            assert(self@.palette[next_id as int] == name);
                        } else if before.contains(name) {
                            let at = choose|i: int| 0 <= i < before.len() && before[i] == name;
                            assert(self@.palette[at] == name);
                        }
                    }
                    assert forall|i: int| 0 <= i < self@.palette.len() implies self.palette_map@[
                    #[trigger] self@.palette[i]] == i by {
                        if i < before.len() {
                            assert(before[i] == self@.palette[i]);
                            assert(before.contains(before[i]));
                        }
                    }
                }
                next_id
            },
        }
    }

    /// Sets the palette id of the block at a position. Every other position
    /// keeps its id.
    pub fn set_block_id_at(&mut self, pos_x: u32, pos_y: u32, pos_z: u32, id: u32)
        requires
            old(self).wf(),
            old(self)@.in_bounds(pos_x, pos_y, pos_z),
            id < old(self)@.palette.len(),
        ensures
            final(self).wf(),
            final(self)@ == old(self)@.with_id_at(pos_x, pos_y, pos_z, id),
            final(self)@.id_at(pos_x, pos_y, pos_z) == id,
            forall|x: u32, y: u32, z: u32|
                old(self)@.in_bounds(x, y, z) && (x, y, z) != (pos_x, pos_y, pos_z)
                    ==> final(self)@.id_at(x, y, z) == old(self)@.id_at(x, y, z),
    {
        let idx = self.block_index_at(pos_x, pos_y, pos_z);
        self.indices[idx] = id;
        proof {
            assert forall|x: u32, y: u32, z: u32|
                old(self)@.in_bounds(x, y, z) && (x, y, z) != (
                    pos_x,
                    pos_y,
                    pos_z,
                ) implies self@.id_at(x, y, z) == old(self)@.id_at(x, y, z) by {
                lemma_index_in_range(old(self)@, x, y, z);
                if old(self)@.index_of(x, y, z) == old(self)@.index_of(pos_x, pos_y, pos_z) {
                    lemma_index_injective(old(self)@, x, y, z, pos_x, pos_y, pos_z);
                }
            }
        }
    }

    /// Sets the block at a position by its name.
    pub fn set_block_at(&mut self, pos_x: u32, pos_y: u32, pos_z: u32, block: &str)
        requires
            old(self).wf(),
            old(self)@.in_bounds(pos_x, pos_y, pos_z),
            old(self)@.palette.contains(block@) || old(self)@.palette.len() <= u32::MAX,
        ensures
            final(self).wf(),
            final(self)@.palette == palette_with(old(self)@.palette, block@),
            final(self)@.name_at(pos_x, pos_y, pos_z) == block@,
            final(self)@ == old(self)@.with_name(block@).with_id_at(
                pos_x,
                pos_y,
                pos_z,
                final(self)@.id_at(pos_x, pos_y, pos_z),
            ),
    {
        let id = self.get_block_id_for(block);
        self.set_block_id_at(pos_x, pos_y, pos_z, id);
    }

    /// The names of all types of blocks in the palette, in palette order.
    pub fn blocks_in_palette(&self) -> (names: Vec<&str>)
        ensures
            names.len() == self@.palette.len(),
            forall|i: int| 0 <= i < names.len() ==> names[i]@ == self@.palette[i],
    {
        let mut names: Vec<&str> = Vec::new();
        let mut i: usize = 0;
        while i < self.palette.len()
            invariant
                i <= self.palette.len(),
                names.len() == i,
                forall|j: int| 0 <= j < i ==> names[j]@ == self.palette[j]@,
            decreases self.palette.len() - i,
        {
            names.push(self.palette[i].as_str());
            i += 1;
        }
        names
    }
}

} // verus!
