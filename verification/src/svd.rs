use crate::algebra::column_product;
use crate::algebra::columns_turned;
use crate::algebra::is_product;
use crate::algebra::rotate_columns;
use crate::algebra::sums_to;
use crate::algebra::multiply;
use crate::algebra::transpose;
use crate::error::MatrixError;
use crate::matrix::Grid;
use crate::matrix::Matrix;
use crate::order::descending_order;
use crate::order::descends;
use crate::order::is_arrangement;
use crate::order::neighbours_descend;
use crate::order::step_descends;
use crate::order::values_descend;
use crate::sweep::run;
use crate::sweep::run_gives;
use crate::sweep::Position;
use vstd::prelude::*;

verus! {

/// What a thin singular value decomposition holds: the singular values, the
/// left factor with one column for each of them, and the transposed right
/// factor with one row for each of them.
pub struct Factors<T> {
    pub values: Seq<T>,
    pub u: Grid<T>,
    pub vt: Grid<T>,
}

impl<T> Factors<T> {
    /// The two factors are grids, and each has one line for every singular value.
    pub open spec fn wf(self) -> bool {
        &&& self.u.wf()
        &&& self.vt.wf()
        &&& self.u.columns() == self.values.len()
        &&& self.vt.rows() == self.values.len()
    }

    /// The thin form of a full decomposition `u * s * transpose(v)`: the
    /// diagonal of `s`, as many leading columns of `u`, and as many leading
    /// rows of the transpose of `v`.
    pub open spec fn thin_of(u: Grid<T>, s: Grid<T>, v: Grid<T>) -> Factors<T> {
        Factors {
            values: s.diagonal(),
            u: u.leading_columns(s.diagonal().len()),
            vt: v.transposed().leading_rows(s.diagonal().len()),
        }
    }

    /// Whether three grids have the shapes of a full decomposition of a
    /// matrix that has at least one row and one column: `u` square with the
    /// rows of `s`, `v` square with the columns of `s`.
    pub open spec fn full_shapes(u: Grid<T>, s: Grid<T>, v: Grid<T>) -> bool {
        &&& s.rows() > 0
        &&& s.columns() > 0
        &&& u.rows() == s.rows()
        &&& u.columns() == s.rows()
        &&& v.rows() == s.columns()
        &&& v.columns() == s.columns()
    }

    /// Whether `self` is what the columns of `w` and `v` give when they are
    /// taken in the order of `picks`, as far as there are singular values:
    /// value `t` is the norm of column `picks[t]`, column `t` of the left
    /// factor is that column of `w` with each entry handed to `normalise`
    /// together with the norm, and row `t` of the transposed right factor is
    /// that column of `v`.
    pub open spec fn arranged<N: Fn(T, T) -> T>(
        self,
        normalise: N,
        w: Grid<T>,
        v: Grid<T>,
        norms: Seq<T>,
        picks: Seq<usize>,
    ) -> bool {
        &&& self.values.len() == (if w.rows() <= w.columns() {
            w.rows()
        } else {
            w.columns()
        })
        &&& self.u.rows() == w.rows()
        &&& self.vt.columns() == v.rows()
        &&& forall|t: int|
            0 <= t < self.values.len() ==> #[trigger] self.values[t] == norms[picks[t] as int]
        &&& forall|i: int, t: int|
            0 <= i < w.rows() && 0 <= t < self.values.len() ==> normalise.ensures(
                (w.cells[i][picks[t] as int], norms[picks[t] as int]),
                #[trigger] self.u.cells[i][t],
            )
        &&& forall|t: int, i: int|
            0 <= t < self.values.len() && 0 <= i < v.rows() ==> #[trigger] self.vt.cells[t][i]
                == v.cells[i][picks[t] as int]
    }

    /// Whether a matrix of rotated columns, the matrix of the rotations and
    /// the norms of the columns fit together: at least one row and one
    /// column, `v` square, and one column of `v` and one norm for each column
    /// of `w`.
    pub open spec fn rotated_shapes(w: Grid<T>, v: Grid<T>, norms: Seq<T>) -> bool {
        &&& w.rows() > 0
        &&& w.columns() > 0
        &&& v.rows() == w.columns()
        &&& v.columns() == w.columns()
        &&& norms.len() == w.columns()
    }
}

/// `at_least`, asked whether the value at `i` is at least the one after it,
/// can answer `verdict`.
pub open spec fn said_of_neighbours<T, F: Fn(T, T) -> bool>(
    at_least: F,
    values: Seq<T>,
    i: int,
    verdict: bool,
) -> bool {
    at_least.ensures((values[i], values[i + 1]), verdict)
}

/// `r` is a result that finishing a decomposition by rotations can have:
/// `Ok` exactly where the shapes fit, and then a decomposition made of the
/// columns of `w` and `v` in descending order of `norms`.
pub open spec fn rotated_gives<T, F: Fn(T, T) -> bool, N: Fn(T, T) -> T>(
    at_least: F,
    normalise: N,
    w: Grid<T>,
    v: Grid<T>,
    norms: Seq<T>,
    r: Result<Svd<T>, MatrixError>,
) -> bool {
    &&& r is Ok <==> Factors::rotated_shapes(w, v, norms)
    &&& r matches Ok(d) ==> d@.wf() && exists|picks: Seq<usize>|
        is_arrangement(picks, norms.len()) && descends(at_least, norms, picks)
            && #[trigger] d@.arranged(normalise, w, v, norms, picks)
    &&& r matches Err(e) ==> e == MatrixError::DimensionMismatch
}

/// The singular values of a decomposition that was arranged in descending
/// order of the norms descend themselves: each may stand before the next.
pub proof fn lemma_arranged_values_descend<T, F: Fn(T, T) -> bool, N: Fn(T, T) -> T>(
    d: Factors<T>,
    at_least: F,
    normalise: N,
    w: Grid<T>,
    v: Grid<T>,
    norms: Seq<T>,
    picks: Seq<usize>,
)
    requires
        norms.len() == w.columns(),
        is_arrangement(picks, norms.len()),
        descends(at_least, norms, picks),
        d.arranged(normalise, w, v, norms, picks),
    ensures
        values_descend(at_least, d.values),
{
    assert forall|t: int| 0 <= t < d.values.len() - 1 implies #[trigger] neighbours_descend(
        at_least,
        d.values,
        t,
    ) by {
        assert(step_descends(at_least, norms, picks, t));
        assert(d.values[t] == norms[picks[t] as int]);
        assert(d.values[t + 1] == norms[picks[t + 1] as int]);
    }
}

/// `norms` holds, for each column of `w`, a value that `column_norm` can give
/// for it.
pub open spec fn norms_given<T, L: Fn(&Matrix<T>, usize) -> T>(
    column_norm: L,
    w: &Matrix<T>,
    norms: Seq<T>,
) -> bool {
    &&& norms.len() == w@.columns()
    &&& forall|j: int|
        0 <= j < norms.len() ==> column_norm.ensures((w, j as usize), #[trigger] norms[j])
}

/// `r` is a result that a decomposition can have once its sweeps have ended
/// as `ran`: the failure of the sweeps, or what the rotated columns, the
/// rotations and the norms of the columns give.
pub open spec fn finished<
    T,
    L: Fn(&Matrix<T>, usize) -> T,
    F: Fn(T, T) -> bool,
    N: Fn(T, T) -> T,
>(
    column_norm: L,
    at_least: F,
    normalise: N,
    ran: Result<(Matrix<T>, Matrix<T>), MatrixError>,
    r: Result<Svd<T>, MatrixError>,
) -> bool {
    match ran {
        Err(_) => r == Err::<Svd<T>, MatrixError>(MatrixError::ConvergenceFailure),
        Ok(state) => exists|norms: Seq<T>|
            norms_given(column_norm, &state.0, norms) && #[trigger] rotated_gives(
                at_least,
                normalise,
                state.0@,
                state.1@,
                norms,
                r,
            ),
    }
}

/// Whether `p` and `q` name two different columns that both `w` and `v` have.
pub open spec fn pair_fits<T>(w: Grid<T>, v: Grid<T>, p: int, q: int) -> bool {
    &&& p != q
    &&& 0 <= p < w.columns()
    &&& 0 <= q < w.columns()
    &&& p < v.columns()
    &&& q < v.columns()
}

/// `r` is what treating the pair of columns `(p, q)` can make of `w` and `v`.
/// The products of column `p` with itself, of column `q` with itself and of
/// the two with each other are handed to `angle`. Where `angle` gives a
/// cosine and a sine, the two columns are rotated by them in `w` and in `v`,
/// and the pair counts as rotated; where it gives none, or the pair does not
/// fit, both matrices stay as they are.
pub open spec fn pair_treated<
    T,
    A: Fn(T, T) -> T,
    S: Fn(T, T) -> T,
    M: Fn(T, T) -> T,
    G: Fn(T, T, T) -> Option<(T, T)>,
>(
    plus: A,
    minus: S,
    times: M,
    angle: G,
    zero: T,
    w: Matrix<T>,
    v: Matrix<T>,
    p: int,
    q: int,
    r: ((Matrix<T>, Matrix<T>), bool),
) -> bool {
    if !pair_fits(w@, v@, p, q) {
        r == ((w, v), false)
    } else {
        exists|alpha: T, beta: T, gamma: T, verdict: Option<(T, T)>|
            sums_to(plus, times, zero, w@.column(p), w@.column(p), w@.rows(), alpha) && sums_to(
                plus,
                times,
                zero,
                w@.column(q),
                w@.column(q),
                w@.rows(),
                beta,
            ) && sums_to(plus, times, zero, w@.column(p), w@.column(q), w@.rows(), gamma)
                && #[trigger] angle.ensures((alpha, beta, gamma), verdict) && (match verdict {
                None => r == ((w, v), false),
                Some(turn) => r.1 && columns_turned(
                    plus,
                    minus,
                    times,
                    turn.0,
                    turn.1,
                    w@,
                    p,
                    q,
                    r.0.0@,
                ) && columns_turned(plus, minus, times, turn.0, turn.1, v@, p, q, r.0.1@),
            })
    }
}

/// Treats one pair of columns in a decomposition by rotations, with the
/// scalar work supplied by the caller. `state` holds the matrix whose columns
/// are being made orthogonal and the matrix of the rotations applied so far.
/// `angle` is handed the product of column `p` with itself, that of column
/// `q` with itself and that of the two with each other, and gives the cosine
/// and the sine to rotate by, or nothing where the pair needs no rotation.
pub fn rotate_pair<
    T: Copy,
    A: Fn(T, T) -> T,
    S: Fn(T, T) -> T,
    M: Fn(T, T) -> T,
    G: Fn(T, T, T) -> Option<(T, T)>,
>(
    state: (Matrix<T>, Matrix<T>),
    p: usize,
    q: usize,
    zero: T,
    plus: &A,
    minus: &S,
    times: &M,
    angle: &G,
) -> (r: ((Matrix<T>, Matrix<T>), bool))
    requires
        forall|x: T, y: T| plus.requires((x, y)),
        forall|x: T, y: T| minus.requires((x, y)),
        forall|x: T, y: T| times.requires((x, y)),
        forall|x: T, y: T, z: T| angle.requires((x, y, z)),
    ensures
        pair_treated(
            *plus,
            *minus,
            *times,
            *angle,
            zero,
            state.0,
            state.1,
            p as int,
            q as int,
            r,
        ),
{
    let (w, v) = state;
    let columns: usize = w.columns();
    let width: usize = v.columns();
    if p == q || p >= columns || q >= columns || p >= width || q >= width {
        return ((w, v), false);
    }
    let alpha: T = match column_product(&w, p, p, zero, plus, times) {
        Ok(x) => x,
        Err(_) => {
            return ((w, v), false);
        },
    };
    let beta: T = match column_product(&w, q, q, zero, plus, times) {
        Ok(x) => x,
        Err(_) => {
            return ((w, v), false);
        },
    };
    let gamma: T = match column_product(&w, p, q, zero, plus, times) {
        Ok(x) => x,
        Err(_) => {
            return ((w, v), false);
        },
    };
    let verdict: Option<(T, T)> = angle(alpha, beta, gamma);
    proof {
        assert(angle.ensures((alpha, beta, gamma), verdict));
    }
    match verdict {
        None => ((w, v), false),
        Some((c, s)) => {
            let turned_w = rotate_columns(&w, p, q, c, s, plus, minus, times);
            let turned_v = rotate_columns(&v, p, q, c, s, plus, minus, times);
            match turned_w {
                Ok(w2) => match turned_v {
                    Ok(v2) => ((w2, v2), true),
                    Err(_) => ((w, v), false),
                },
                Err(_) => ((w, v), false),
            }
        },
    }
}

/// The square grid of the given size with `one` on its diagonal and `zero`
/// elsewhere.
pub open spec fn identity<T>(size: nat, zero: T, one: T) -> Grid<T> {
    Grid::scaling(Seq::new(size, |j: int| one), zero)
}

/// The singular value decomposition of `a` by one-sided rotations, with the
/// scalar work supplied by the caller.
///
/// The columns of `a` and of the identity matrix are handed to `treat` pair
/// after pair, sweep after sweep; `treat` rotates a pair where it finds it
/// necessary and says whether it did. After a sweep without rotation the
/// columns are put in descending order of the norms that `column_norm` gives
/// for them, and make up the decomposition as `from_rotated` says. A matrix
/// without rows or columns is refused; after `max_sweeps` sweeps that each
/// rotated something the decomposition fails.
pub fn decompose<
    T: Copy,
    R: Fn((Matrix<T>, Matrix<T>), usize, usize) -> ((Matrix<T>, Matrix<T>), bool),
    L: Fn(&Matrix<T>, usize) -> T,
    F: Fn(T, T) -> bool,
    N: Fn(T, T) -> T,
>(
    a: &Matrix<T>,
    zero: T,
    one: T,
    max_sweeps: usize,
    treat: &R,
    column_norm: &L,
    at_least: &F,
    normalise: &N,
) -> (r: Result<Svd<T>, MatrixError>)
    requires
        forall|s: (Matrix<T>, Matrix<T>), p: usize, q: usize|
            p < q < a@.columns() ==> treat.requires((s, p, q)),
        forall|w: &Matrix<T>, j: usize| j < w@.columns() ==> column_norm.requires((w, j)),
        forall|x: T, y: T| at_least.requires((x, y)),
        forall|x: T, y: T| normalise.requires((x, y)),
    ensures
        a@.rows() == 0 || a@.columns() == 0 ==> r == Err::<Svd<T>, MatrixError>(
            MatrixError::DimensionMismatch,
        ),
        a@.rows() > 0 && a@.columns() > 0 ==> exists|
            w: Matrix<T>,
            v: Matrix<T>,
            ran: Result<(Matrix<T>, Matrix<T>), MatrixError>,
        |
            w@ == a@ && v@ == identity(a@.columns(), zero, one) && #[trigger] run_gives(
                *treat,
                (w, v),
                Position::first(a@.columns(), max_sweeps as nat),
                ran,
            ) && finished(*column_norm, *at_least, *normalise, ran, r),
{
    let rows: usize = a.rows();
    let columns: usize = a.columns();
    if rows == 0 || columns == 0 {
        return Err(MatrixError::DimensionMismatch);
    }
    let mut ones: Vec<T> = Vec::new();
    let mut j: usize = 0;
    while j < columns
        invariant
            j <= columns,
            ones@ == Seq::new(j as nat, |j: int| one),
        decreases columns - j,
    {
        ones.push(one);
        j = j + 1;
        proof {
            assert(ones@ =~= Seq::new(j as nat, |j: int| one));
        }
    }
    let v: Matrix<T> = Matrix::scaling(&ones, zero);
    let w: Matrix<T> = match a.leading_rows(rows) {
        Ok(w) => w,
        Err(e) => {
            return Err(e);
        },
    };
    proof {
        assert(a@.cells.subrange(0, rows as int) =~= a@.cells);
        assert(w@ == a@);
    }
    let ghost start = (w, v);
    let ran = run(columns, max_sweeps, (w, v), treat);
    match ran {
        Err(e) => {
            let r = Err(e);
            proof {
                assert(finished(*column_norm, *at_least, *normalise, ran, r));
            }
            r
        },
        Ok((turned, turns)) => {
            let width: usize = turned.columns();
            let mut norms: Vec<T> = Vec::new();
            let mut j: usize = 0;
            while j < width
                invariant
                    j <= width,
                    width == turned@.columns(),
                    forall|w: &Matrix<T>, j: usize|
                        j < w@.columns() ==> column_norm.requires((w, j)),
                    norms@.len() == j,
                    forall|t: int|
                        0 <= t < j ==> column_norm.ensures(
                            (&turned, t as usize),
                            #[trigger] norms@[t],
                        ),
                decreases width - j,
            {
                let n: T = column_norm(&turned, j);
                norms.push(n);
                j = j + 1;
            }
            let r = Svd::from_rotated(&turned, &turns, &norms, at_least, normalise);
            proof {
                assert(norms_given(*column_norm, &turned, norms@));
                assert(rotated_gives(*at_least, *normalise, turned@, turns@, norms@, r));
                assert(finished(*column_norm, *at_least, *normalise, ran, r));
            }
            r
        },
    }
}

/// The number of singular values of a matrix with the given shape: the
/// smaller of the two dimensions. A matrix without rows or without columns
/// has no decomposition.
pub fn thin_rank(rows: usize, columns: usize) -> (r: Result<usize, MatrixError>)
    ensures
        r is Ok <==> rows > 0 && columns > 0,
        r matches Ok(k) ==> k == (if rows <= columns {
            rows
        } else {
            columns
        }),
        r matches Err(e) ==> e == MatrixError::DimensionMismatch,
{
    if rows == 0 || columns == 0 {
        Err(MatrixError::DimensionMismatch)
    } else if rows <= columns {
        Ok(rows)
    } else {
        Ok(columns)
    }
}

/// A thin singular value decomposition. It is never changed after it is made.
#[derive(Debug, PartialEq)]
pub struct Svd<T> {
    values: Vec<T>,
    u: Matrix<T>,
    vt: Matrix<T>,
}

impl<T> View for Svd<T> {
    type V = Factors<T>;

    closed spec fn view(&self) -> Factors<T> {
        Factors { values: self.values@, u: self.u@, vt: self.vt@ }
    }
}

impl<T> Svd<T> {
    #[verifier::type_invariant]
    closed spec fn inv(&self) -> bool {
        (Factors { values: self.values@, u: self.u@, vt: self.vt@ }).wf()
    }
}

impl<T: Copy> Svd<T> {
    /// Brings a full decomposition `u * s * transpose(v)` into thin form. The
    /// three matrices must have the shapes of a full decomposition.
    pub fn from_full(u: &Matrix<T>, s: &Matrix<T>, v: &Matrix<T>) -> (r: Result<
        Svd<T>,
        MatrixError,
    >)
        ensures
            r is Ok <==> Factors::full_shapes(u@, s@, v@),
            r matches Ok(d) ==> d@.wf() && d@ == Factors::thin_of(u@, s@, v@),
            r matches Err(e) ==> e == MatrixError::DimensionMismatch,
    {
        let rows: usize = s.rows();
        let columns: usize = s.columns();
        let k: usize = match thin_rank(rows, columns) {
            Ok(k) => k,
            Err(e) => {
                return Err(e);
            },
        };
        if u.rows() != rows || u.columns() != rows || v.rows() != columns || v.columns()
            != columns {
            return Err(MatrixError::DimensionMismatch);
        }
        let values: Vec<T> = s.diagonal();
        let vt_full: Matrix<T> = transpose(v);
        match u.leading_columns(k) {
            Ok(thin_u) => match vt_full.leading_rows(k) {
                Ok(thin_vt) => Ok(Svd { values, u: thin_u, vt: thin_vt }),
                Err(_) => Err(MatrixError::DimensionMismatch),
            },
            Err(_) => Err(MatrixError::DimensionMismatch),
        }
    }

    /// Puts the parts of a thin decomposition together. The left factor must
    /// have one column, and the transposed right factor one row, for each
    /// singular value.
    pub fn from_thin(values: Vec<T>, u: Matrix<T>, vt: Matrix<T>) -> (r: Result<
        Svd<T>,
        MatrixError,
    >)
        ensures
            r is Ok <==> u@.columns() == values@.len() && vt@.rows() == values@.len(),
            r matches Ok(d) ==> d@.wf() && d@ == (Factors { values: values@, u: u@, vt: vt@ }),
            r matches Err(e) ==> e == MatrixError::DimensionMismatch,
    {
        if u.columns() == values.len() && vt.rows() == values.len() {
            Ok(Svd { values, u, vt })
        } else {
            Err(MatrixError::DimensionMismatch)
        }
    }

    /// Finishes a decomposition by rotations. `w` holds the rotated columns,
    /// `v` the rotations applied, `norms` the norm of each column of `w`. The
    /// columns are taken in descending order of their norms, as many as the
    /// smaller dimension of `w`: the norms become the singular values, the
    /// columns of `w`, each entry handed to `normalise` together with the
    /// norm of its column, the left factor, and the columns of `v` the rows
    /// of the transposed right factor.
    pub fn from_rotated<F: Fn(T, T) -> bool, N: Fn(T, T) -> T>(
        w: &Matrix<T>,
        v: &Matrix<T>,
        norms: &Vec<T>,
        at_least: &F,
        normalise: &N,
    ) -> (r: Result<Svd<T>, MatrixError>)
        requires
            forall|x: T, y: T| at_least.requires((x, y)),
            forall|x: T, y: T| normalise.requires((x, y)),
        ensures
            rotated_gives(*at_least, *normalise, w@, v@, norms@, r),
    {
        let rows: usize = w.rows();
        let columns: usize = w.columns();
        let k: usize = match thin_rank(rows, columns) {
            Ok(k) => k,
            Err(e) => {
                return Err(e);
            },
        };
        if v.rows() != columns || v.columns() != columns || norms.len() != columns {
            return Err(MatrixError::DimensionMismatch);
        }
        let picks: Vec<usize> = descending_order(norms, at_least);
        let mut values: Vec<T> = Vec::new();
        let mut vt_data: Vec<Vec<T>> = Vec::new();
        let mut t: usize = 0;
        while t < k
            invariant
                t <= k,
                k <= columns,
                columns == v@.rows(),
                columns == v@.columns(),
                columns == norms@.len(),
                v@.wf(),
                is_arrangement(picks@, norms@.len()),
                values@.len() == t,
                vt_data@.len() == t,
                forall|a: int| 0 <= a < t ==> #[trigger] values@[a] == norms@[picks@[a] as int],
                forall|a: int| 0 <= a < t ==> (#[trigger] vt_data@[a])@.len() == columns,
                forall|a: int, i: int|
                    0 <= a < t && 0 <= i < columns ==> #[trigger] vt_data@[a]@[i]
                        == v@.cells[i][picks@[a] as int],
            decreases k - t,
        {
            let pick: usize = picks[t];
            values.push(norms[pick]);
            let mut line: Vec<T> = Vec::new();
            let mut i: usize = 0;
            while i < columns
                invariant
                    i <= columns,
                    pick < columns,
                    columns == v@.rows(),
                    columns == v@.columns(),
                    v@.wf(),
                    line@.len() == i,
                    forall|b: int| 0 <= b < i ==> #[trigger] line@[b] == v@.cells[b][pick as int],
                decreases columns - i,
            {
                line.push(v.cell(i, pick));
                i = i + 1;
            }
            vt_data.push(line);
            t = t + 1;
        }
        let mut u_data: Vec<Vec<T>> = Vec::new();
        let mut i: usize = 0;
        while i < rows
            invariant
                i <= rows,
                k <= columns,
                rows == w@.rows(),
                columns == w@.columns(),
                columns == norms@.len(),
                w@.wf(),
                is_arrangement(picks@, norms@.len()),
                forall|x: T, y: T| normalise.requires((x, y)),
                u_data@.len() == i,
                forall|a: int| 0 <= a < i ==> (#[trigger] u_data@[a])@.len() == k,
                forall|a: int, b: int|
                    0 <= a < i && 0 <= b < k ==> normalise.ensures(
                        (w@.cells[a][picks@[b] as int], norms@[picks@[b] as int]),
                        #[trigger] u_data@[a]@[b],
                    ),
            decreases rows - i,
        {
            let mut line: Vec<T> = Vec::new();
            let mut t: usize = 0;
            while t < k
                invariant
                    t <= k,
                    k <= columns,
                    i < rows,
                    rows == w@.rows(),
                    columns == w@.columns(),
                    columns == norms@.len(),
                    w@.wf(),
                    is_arrangement(picks@, norms@.len()),
                    forall|x: T, y: T| normalise.requires((x, y)),
                    line@.len() == t,
                    forall|b: int|
                        0 <= b < t ==> normalise.ensures(
                            (w@.cells[i as int][picks@[b] as int], norms@[picks@[b] as int]),
                            #[trigger] line@[b],
                        ),
                decreases k - t,
            {
                let pick: usize = picks[t];
                let entry: T = normalise(w.cell(i, pick), norms[pick]);
                line.push(entry);
                t = t + 1;
            }
            u_data.push(line);
            i = i + 1;
        }
        let u: Matrix<T> = Matrix::assemble(k, u_data);
        let vt: Matrix<T> = Matrix::assemble(columns, vt_data);
        let d = Svd { values, u, vt };
        proof {
            assert(d@.arranged(*normalise, w@, v@, norms@, picks@));
        }
        Ok(d)
    }

    /// The singular values, in the order in which they were given.
    pub fn singular_values(&self) -> (values: &Vec<T>)
        ensures
            values@ == self@.values,
            self@.wf(),
    {
        proof {
            use_type_invariant(self);
        }
        &self.values
    }

    /// The left factor: one column for each singular value.
    pub fn u(&self) -> (m: &Matrix<T>)
        ensures
            m@ == self@.u,
            self@.wf(),
    {
        proof {
            use_type_invariant(self);
        }
        &self.u
    }

    /// The transposed right factor: one row for each singular value.
    pub fn vt(&self) -> (m: &Matrix<T>)
        ensures
            m@ == self@.vt,
            self@.wf(),
    {
        proof {
            use_type_invariant(self);
        }
        &self.vt
    }

    /// Multiplies the factors out again: the left factor, times the square
    /// matrix with the singular values on its diagonal, times the transposed
    /// right factor, with the scalar arithmetic supplied by the caller. The
    /// shapes always fit, so the result is always `Ok`.
    pub fn reconstruct<A: Fn(T, T) -> T, M: Fn(T, T) -> T>(
        &self,
        zero: T,
        plus: &A,
        times: &M,
    ) -> (r: Result<Matrix<T>, MatrixError>)
        requires
            forall|x: T, y: T| plus.requires((x, y)),
            forall|x: T, y: T| times.requires((x, y)),
        ensures
            r is Ok,
            r matches Ok(m) ==> exists|scaled: Grid<T>|
                #[trigger] is_product(
                    *plus,
                    *times,
                    zero,
                    self@.u,
                    Grid::scaling(self@.values, zero),
                    scaled,
                ) && is_product(*plus, *times, zero, scaled, self@.vt, m@),
    {
        proof {
            use_type_invariant(self);
        }
        let sigma: Matrix<T> = Matrix::scaling(&self.values, zero);
        match multiply(&self.u, &sigma, zero, plus, times) {
            Ok(scaled) => {
                let r = multiply(&scaled, &self.vt, zero, plus, times);
                proof {
                    assert(is_product(
                        *plus,
                        *times,
                        zero,
                        self@.u,
                        Grid::scaling(self@.values, zero),
                        scaled@,
                    ));
                }
                r
            },
            Err(e) => Err(e),
        }
    }
    /// Whether the singular values descend: `at_least` accepts each of them
    /// together with the one that follows it.
    pub fn is_descending<F: Fn(T, T) -> bool>(&self, at_least: &F) -> (r: bool)
        requires
            forall|x: T, y: T| at_least.requires((x, y)),
        ensures
            r ==> forall|i: int|
                0 <= i < self@.values.len() - 1 ==> #[trigger] said_of_neighbours(
                    *at_least,
                    self@.values,
                    i,
                    true,
                ),
            !r ==> exists|i: int|
                0 <= i < self@.values.len() - 1 && #[trigger] said_of_neighbours(
                    *at_least,
                    self@.values,
                    i,
                    false,
                ),
    {
        let n: usize = self.values.len();
        let mut i: usize = 1;
        while i < n
            invariant
                1 <= i,
                n == self.values@.len(),
                forall|x: T, y: T| at_least.requires((x, y)),
                forall|k: int|
                    0 <= k < i - 1 ==> #[trigger] said_of_neighbours(
                        *at_least,
                        self.values@,
                        k,
                        true,
                    ),
            decreases n - i,
        {
            let ordered: bool = at_least(self.values[i - 1], self.values[i]);
            proof {
                assert(said_of_neighbours(*at_least, self.values@, i - 1, ordered));
            }
            if !ordered {
                proof {
                    assert(self@.values == self.values@);
                    assert(said_of_neighbours(*at_least, self@.values, i - 1, false));
                }
                return false;
            }
            i = i + 1;
        }
        true
    }

    /// Whether no singular value is negative: `at_least` accepts each of them
    /// together with `zero`.
    pub fn is_non_negative<F: Fn(T, T) -> bool>(&self, zero: T, at_least: &F) -> (r: bool)
        requires
            forall|x: T, y: T| at_least.requires((x, y)),
        ensures
            r ==> forall|i: int|
                0 <= i < self@.values.len() ==> at_least.ensures(
                    (#[trigger] self@.values[i], zero),
                    true,
                ),
            !r ==> exists|i: int|
                0 <= i < self@.values.len() && at_least.ensures(
                    (#[trigger] self@.values[i], zero),
                    false,
                ),
    {
        let n: usize = self.values.len();
        let mut i: usize = 0;
        while i < n
            invariant
                i <= n,
                n == self.values@.len(),
                forall|x: T, y: T| at_least.requires((x, y)),
                forall|k: int|
                    0 <= k < i ==> at_least.ensures((#[trigger] self.values@[k], zero), true),
            decreases n - i,
        {
            let accepted: bool = at_least(self.values[i], zero);
            if !accepted {
                proof {
                    assert(at_least.ensures((self@.values[i as int], zero), false));
                }
                return false;
            }
            i = i + 1;
        }
        true
    }
}

} // verus!
