//! The square grid of modules on which a symbol is built.
//!
//! [`Canvas`] is the mathematical picture: for every module its colour and
//! whether it belongs to a function pattern. [`Grid`] is the executable
//! grid, stored row after row, whose view is a `Canvas`.

use vstd::prelude::*;

verus! {

/// A square of modules: `dark[y][x]` is the colour of the module in column
/// `x` of row `y` (true for dark), `func[y][x]` says whether it is a
/// function module.
#[verifier::ext_equal]
pub struct Canvas {
    pub dark: Seq<Seq<bool>>,
    pub func: Seq<Seq<bool>>,
}

impl Canvas {
    /// Both layers are squares of the given side.
    pub open spec fn wf(self, size: int) -> bool {
        &&& self.dark.len() == size
        &&& self.func.len() == size
        &&& forall|y: int| 0 <= y < size ==> (#[trigger] self.dark[y]).len() == size
        &&& forall|y: int| 0 <= y < size ==> (#[trigger] self.func[y]).len() == size
    }

    /// Colour of the module at column `x`, row `y`.
    pub open spec fn at(self, x: int, y: int) -> bool {
        self.dark[y][x]
    }

    /// Whether the module at column `x`, row `y` is a function module.
    pub open spec fn fun(self, x: int, y: int) -> bool {
        self.func[y][x]
    }

    /// The canvas whose modules are given by two functions of the coordinates.
    pub open spec fn from_fn(
        size: int,
        dark: spec_fn(int, int) -> bool,
        func: spec_fn(int, int) -> bool,
    ) -> Canvas {
        Canvas {
            dark: Seq::new(size as nat, |y: int| Seq::new(size as nat, |x: int| dark(x, y))),
            func: Seq::new(size as nat, |y: int| Seq::new(size as nat, |x: int| func(x, y))),
        }
    }

    /// All modules light, none a function module.
    pub open spec fn blank(size: int) -> Canvas {
        Canvas::from_fn(size, |x: int, y: int| false, |x: int, y: int| false)
    }

    /// This canvas with one module recoloured.
    pub open spec fn with_dark(self, x: int, y: int, v: bool) -> Canvas {
        Canvas { dark: self.dark.update(y, self.dark[y].update(x, v)), func: self.func }
    }

    /// This canvas with one module recoloured and marked as a function module.
    pub open spec fn with_function(self, x: int, y: int, v: bool) -> Canvas {
        Canvas {
            dark: self.dark.update(y, self.dark[y].update(x, v)),
            func: self.func.update(y, self.func[y].update(x, true)),
        }
    }

    /// Two canvases of one size that agree module by module are equal.
    pub proof fn lemma_ext(a: Canvas, b: Canvas, size: int)
        requires
            a.wf(size),
            b.wf(size),
            forall|x: int, y: int|
                0 <= x < size && 0 <= y < size ==> #[trigger] a.at(x, y) == b.at(x, y),
            forall|x: int, y: int|
                0 <= x < size && 0 <= y < size ==> #[trigger] a.fun(x, y) == b.fun(x, y),
        ensures
            a == b,
    {
        assert forall|y: int| 0 <= y < size implies a.dark[y] =~= b.dark[y] by {
            assert forall|x: int| 0 <= x < size implies a.dark[y][x] == b.dark[y][x] by {
                assert(a.at(x, y) == b.at(x, y));
            }
        }
        assert forall|y: int| 0 <= y < size implies a.func[y] =~= b.func[y] by {
            assert forall|x: int| 0 <= x < size implies a.func[y][x] == b.func[y][x] by {
                assert(a.fun(x, y) == b.fun(x, y));
            }
        }
        assert(a.dark =~= b.dark);
        assert(a.func =~= b.func);
    }
}

/// Row `y`, column `x` of a square of side `size` stored row after row lies
/// at a place of its own inside the square.
pub proof fn lemma_flat_index(size: int, x: int, y: int)
    requires
        0 <= x < size,
        0 <= y < size,
    ensures
        0 <= y * size <= y * size + x < size * size,
        size <= 177 ==> size * size <= 31329,
{
    assert(size <= 177 ==> size * size <= 31329) by (nonlinear_arith)
        requires
            0 < size,
    ;
    assert(y * size + x < size * size) by (nonlinear_arith)
        requires
            0 <= x < size,
            0 <= y < size,
    ;
    assert(0 <= y * size) by (nonlinear_arith)
        requires
            0 <= y,
            0 < size,
    ;
}

/// Different modules lie at different places.
pub proof fn lemma_flat_index_injective(size: int, x1: int, y1: int, x2: int, y2: int)
    requires
        0 <= x1 < size,
        0 <= y1 < size,
        0 <= x2 < size,
        0 <= y2 < size,
        y1 * size + x1 == y2 * size + x2,
    ensures
        x1 == x2,
        y1 == y2,
{
    assert(y1 == y2) by (nonlinear_arith)
        requires
            0 <= x1 < size,
            0 <= x2 < size,
            y1 * size + x1 == y2 * size + x2,
    ;
}

/// The executable grid of a symbol under construction.
pub struct Grid {
    size: i32,
    modules: Vec<bool>,
    isfunction: Vec<bool>,
}

impl View for Grid {
    type V = Canvas;

    closed spec fn view(&self) -> Canvas {
        let n = self.size as int;
        Canvas::from_fn(
            n,
            |x: int, y: int| self.modules@[y * n + x],
            |x: int, y: int| self.isfunction@[y * n + x],
        )
    }
}

impl Grid {
    /// The side of the grid, in modules.
    pub closed spec fn spec_size(&self) -> int {
        self.size as int
    }

    /// The side is that of some version's symbol at most, and both layers hold one entry per module.
    pub closed spec fn wf(&self) -> bool {
        &&& 1 <= self.size <= 177
        &&& self.modules@.len() == self.size * self.size
        &&& self.isfunction@.len() == self.size * self.size
    }

    /// A well-formed grid is seen as a canvas of its side.
    pub proof fn lemma_view_wf(&self)
        requires
            self.wf(),
        ensures
            self@.wf(self.spec_size()),
            1 <= self.spec_size() <= 177,
    {
    }

    /// A grid of the given side with every module light and none a function module.
    pub fn new(size: i32) -> (g: Grid)
        requires
            1 <= size <= 177,
        ensures
            g.wf(),
            g.spec_size() == size,
            g@ == Canvas::blank(size as int),
    {
        assert(size * size <= 177 * 177) by (nonlinear_arith)
            requires
                1 <= size <= 177,
        ;
        let n: usize = (size * size) as usize;
        let g = Grid { size, modules: vec![false; n], isfunction: vec![false; n] };
        proof {
            assert forall|x: int, y: int| 0 <= x < size && 0 <= y < size implies g@.at(x, y)
                == Canvas::blank(size as int).at(x, y) && g@.fun(x, y) == Canvas::blank(
                size as int,
            ).fun(x, y) by {
                lemma_flat_index(size as int, x, y);
            }
            Canvas::lemma_ext(g@, Canvas::blank(size as int), size as int);
        }
        g
    }

    /// The side of the grid.
    pub fn size(&self) -> (r: i32)
        requires
            self.wf(),
        ensures
            r == self.spec_size(),
            1 <= r <= 177,
    {
        self.size
    }

    /// The place of a module in the row-after-row storage.
    fn index(&self, x: i32, y: i32) -> (k: usize)
        requires
            self.wf(),
            0 <= x < self.spec_size(),
            0 <= y < self.spec_size(),
        ensures
            k == y * self.size + x,
            k < self.size * self.size,
    {
        proof {
            lemma_flat_index(self.size as int, x as int, y as int);
        }
        (y * self.size + x) as usize
    }

    /// The colour of the module at the given coordinates, which must lie inside the grid.
    pub fn module(&self, x: i32, y: i32) -> (r: bool)
        requires
            self.wf(),
            0 <= x < self.spec_size(),
            0 <= y < self.spec_size(),
        ensures
            r == self@.at(x as int, y as int),
    {
        self.modules[self.index(x, y)]
    }

    /// Whether the module at the given coordinates is a function module.
    pub fn is_function(&self, x: i32, y: i32) -> (r: bool)
        requires
            self.wf(),
            0 <= x < self.spec_size(),
            0 <= y < self.spec_size(),
        ensures
            r == self@.fun(x as int, y as int),
    {
        self.isfunction[self.index(x, y)]
    }

    /// Recolours one module.
    pub fn set_module(&mut self, x: i32, y: i32, isdark: bool)
        requires
            old(self).wf(),
            0 <= x < old(self).spec_size(),
            0 <= y < old(self).spec_size(),
        ensures
            final(self).wf(),
            final(self).spec_size() == old(self).spec_size(),
            final(self)@ == old(self)@.with_dark(x as int, y as int, isdark),
    {
        let ghost n = self.size as int;
        let k: usize = self.index(x, y);
        self.modules.set(k, isdark);
        proof {
            let a = self@;
            let b = old(self)@.with_dark(x as int, y as int, isdark);
            assert forall|x2: int, y2: int| 0 <= x2 < n && 0 <= y2 < n implies a.at(x2, y2)
                == b.at(x2, y2) && a.fun(x2, y2) == b.fun(x2, y2) by {
                lemma_flat_index(n, x2, y2);
                if y2 * n + x2 == y * n + x {
                    lemma_flat_index_injective(n, x2, y2, x as int, y as int);
                }
            }
            Canvas::lemma_ext(a, b, n);
        }
    }

    /// Colours one module and marks it as a function module.
    pub fn set_function_module(&mut self, x: i32, y: i32, isdark: bool)
        requires
            old(self).wf(),
            0 <= x < old(self).spec_size(),
            0 <= y < old(self).spec_size(),
        ensures
            final(self).wf(),
            final(self).spec_size() == old(self).spec_size(),
            final(self)@ == old(self)@.with_function(x as int, y as int, isdark),
    {
        let ghost n = self.size as int;
        let k: usize = self.index(x, y);
        self.modules.set(k, isdark);
        self.isfunction.set(k, true);
        proof {
            let a = self@;
            let b = old(self)@.with_function(x as int, y as int, isdark);
            assert forall|x2: int, y2: int| 0 <= x2 < n && 0 <= y2 < n implies a.at(x2, y2)
                == b.at(x2, y2) && a.fun(x2, y2) == b.fun(x2, y2) by {
                lemma_flat_index(n, x2, y2);
                if y2 * n + x2 == y * n + x {
                    lemma_flat_index_injective(n, x2, y2, x as int, y as int);
                }
            }
            Canvas::lemma_ext(a, b, n);
        }
    }

    /// Gives up the grid for its modules, stored row after row; the
    /// function marks are dropped.
    pub fn into_modules(self) -> (modules: Vec<bool>)
        requires
            self.wf(),
        ensures
            modules@ == flat(self@.dark),
            modules@.len() == self.spec_size() * self.spec_size(),
    {
        proof {
            let n = self.size as int;
            assert forall|k: int| 0 <= k < n * n implies #[trigger] self.modules@[k] == self@.dark[k
                / n][k % n] by {
                lemma_flat_place(n, k);
                vstd::arithmetic::div_mod::lemma_fundamental_div_mod(k, n);
                assert(n * (k / n) == (k / n) * n) by (nonlinear_arith);
            }
            assert(self.modules@ =~= flat(self@.dark));
        }
        self.modules
    }
}

/// A square of modules laid out row after row.
pub open spec fn flat(dark: Seq<Seq<bool>>) -> Seq<bool> {
    let n = dark.len() as int;
    Seq::new((n * n) as nat, |k: int| dark[k / n][k % n])
}

/// In a square laid out row after row, the module in column `x` of row
/// `y` stands at place `y * size + x`.
pub proof fn lemma_flat_entry(c: Canvas, size: int, x: int, y: int)
    requires
        c.wf(size),
        0 <= x < size,
        0 <= y < size,
    ensures
        0 <= y * size + x < flat(c.dark).len(),
        flat(c.dark)[y * size + x] == c.at(x, y),
{
    lemma_flat_index(size, x, y);
    vstd::arithmetic::div_mod::lemma_fundamental_div_mod_converse(y * size + x, size, y, x);
}

/// Place `k` of a square stored row after row lies in row `k / size` and column `k % size`.
pub proof fn lemma_flat_place(size: int, k: int)
    requires
        0 < size,
        0 <= k < size * size,
    ensures
        0 <= k / size < size,
        0 <= k % size < size,
{
    vstd::arithmetic::div_mod::lemma_fundamental_div_mod(k, size);
    vstd::arithmetic::div_mod::lemma_mod_bound(k, size);
    let q = k / size;
    let r = k % size;
    assert(0 <= q < size) by (nonlinear_arith)
        requires
            k == size * q + r,
            0 <= r < size,
            0 <= k < size * size,
    ;
}

} // verus!
