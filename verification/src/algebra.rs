use crate::error::MatrixError;
use crate::matrix::Grid;
use crate::matrix::Matrix;
use vstd::prelude::*;

verus! {

/// `total` is a value that the two operations can give for the sum of the
/// first `n` products `xs[k] * ys[k]`, added one after the other to `zero` in
/// the order of `k`.
pub open spec fn sums_to<T, A: Fn(T, T) -> T, M: Fn(T, T) -> T>(
    plus: A,
    times: M,
    zero: T,
    xs: Seq<T>,
    ys: Seq<T>,
    n: nat,
    total: T,
) -> bool
    decreases n,
{
    if n == 0 {
        total == zero
    } else {
        exists|before: T, term: T|
            sums_to(plus, times, zero, xs, ys, (n - 1) as nat, before) && times.ensures(
                (xs[n - 1], ys[n - 1]),
                term,
            ) && #[trigger] plus.ensures((before, term), total)
    }
}

/// `c` is a product of `a` and `b` under the two operations: it has the rows
/// of `a` and the columns of `b`, and each entry is a sum of the products of a
/// row of `a` with a column of `b`.
pub open spec fn is_product<T, A: Fn(T, T) -> T, M: Fn(T, T) -> T>(
    plus: A,
    times: M,
    zero: T,
    a: Grid<T>,
    b: Grid<T>,
    c: Grid<T>,
) -> bool {
    &&& c.wf()
    &&& c.rows() == a.rows()
    &&& c.columns() == b.columns()
    &&& forall|i: int, j: int|
        0 <= i < a.rows() && 0 <= j < b.columns() ==> sums_to(
            plus,
            times,
            zero,
            a.cells[i],
            b.column(j),
            a.columns(),
            #[trigger] c.cells[i][j],
        )
}

/// The sum of the first `n` products `times(xs[k], ys[k])`, added one after
/// the other to `zero` by `plus`, in the order of `k`.
pub open spec fn sum_of_products<T>(
    plus: spec_fn(T, T) -> T,
    times: spec_fn(T, T) -> T,
    zero: T,
    xs: Seq<T>,
    ys: Seq<T>,
    n: nat,
) -> T
    decreases n,
{
    if n == 0 {
        zero
    } else {
        plus(
            sum_of_products(plus, times, zero, xs, ys, (n - 1) as nat),
            times(xs[n - 1], ys[n - 1]),
        )
    }
}

/// Where each of the two operations can give only one result for given
/// operands, a sum of products has only one value.
pub proof fn lemma_sums_to_value<T, A: Fn(T, T) -> T, M: Fn(T, T) -> T>(
    plus: A,
    times: M,
    zero: T,
    xs: Seq<T>,
    ys: Seq<T>,
    n: nat,
    total: T,
    plus_value: spec_fn(T, T) -> T,
    times_value: spec_fn(T, T) -> T,
)
    requires
        sums_to(plus, times, zero, xs, ys, n, total),
        forall|x: T, y: T, r: T| #[trigger] plus.ensures((x, y), r) ==> r == plus_value(x, y),
        forall|x: T, y: T, r: T| #[trigger] times.ensures((x, y), r) ==> r == times_value(x, y),
    ensures
        total == sum_of_products(plus_value, times_value, zero, xs, ys, n),
    decreases n,
{
    if n > 0 {
        let (before, term): (T, T) = choose|before: T, term: T|
            sums_to(plus, times, zero, xs, ys, (n - 1) as nat, before) && times.ensures(
                (xs[n - 1], ys[n - 1]),
                term,
            ) && #[trigger] plus.ensures((before, term), total);
        lemma_sums_to_value(
            plus,
            times,
            zero,
            xs,
            ys,
            (n - 1) as nat,
            before,
            plus_value,
            times_value,
        );
    }
}

/// The matrix with rows and columns exchanged.
pub fn transpose<T: Copy>(a: &Matrix<T>) -> (t: Matrix<T>)
    ensures
        t@.wf(),
        t@ == a@.transposed(),
{
    let rows: usize = a.rows();
    let columns: usize = a.columns();
    let mut data: Vec<Vec<T>> = Vec::new();
    let mut j: usize = 0;
    while j < columns
        invariant
            j <= columns,
            rows == a@.rows(),
            columns == a@.columns(),
            data@.len() == j,
            forall|k: int| 0 <= k < j ==> (#[trigger] data@[k])@ == a@.column(k),
        decreases columns - j,
    {
        let mut line: Vec<T> = Vec::new();
        let mut i: usize = 0;
        while i < rows
            invariant
                i <= rows,
                j < columns,
                rows == a@.rows(),
                columns == a@.columns(),
                line@ == a@.column(j as int).subrange(0, i as int),
            decreases rows - i,
        {
            line.push(a.cell(i, j));
            i = i + 1;
            proof {
                assert(line@ =~= a@.column(j as int).subrange(0, i as int));
            }
        }
        proof {
            assert(line@ =~= a@.column(j as int));
        }
        data.push(line);
        j = j + 1;
    }
    let t = Matrix::assemble(rows, data);
    proof {
        assert(t@.cells =~= a@.transposed().cells);
    }
    t
}

/// The product of `a` and `b`, with the scalar arithmetic supplied by the
/// caller: entry `(i, j)` starts from `zero` and, for each `k` in order, has
/// `times(a[i][k], b[k][j])` added to it by `plus`. The columns of `a` must be as
/// many as the rows of `b`.
pub fn multiply<T: Copy, A: Fn(T, T) -> T, M: Fn(T, T) -> T>(
    a: &Matrix<T>,
    b: &Matrix<T>,
    zero: T,
    plus: &A,
    times: &M,
) -> (r: Result<Matrix<T>, MatrixError>)
    requires
        forall|x: T, y: T| plus.requires((x, y)),
        forall|x: T, y: T| times.requires((x, y)),
    ensures
        r is Ok <==> a@.columns() == b@.rows(),
        r matches Ok(c) ==> is_product(*plus, *times, zero, a@, b@, c@),
        r matches Err(e) ==> e == MatrixError::DimensionMismatch,
{
    let rows: usize = a.rows();
    let inner: usize = a.columns();
    let columns: usize = b.columns();
    if inner != b.rows() {
        return Err(MatrixError::DimensionMismatch);
    }
    let mut data: Vec<Vec<T>> = Vec::new();
    let mut i: usize = 0;
    while i < rows
        invariant
            i <= rows,
            rows == a@.rows(),
            inner == a@.columns(),
            inner == b@.rows(),
            columns == b@.columns(),
            a@.wf(),
            b@.wf(),
            forall|x: T, y: T| plus.requires((x, y)),
            forall|x: T, y: T| times.requires((x, y)),
            data@.len() == i,
            forall|p: int| 0 <= p < i ==> (#[trigger] data@[p])@.len() == columns,
            forall|p: int, q: int|
                0 <= p < i && 0 <= q < columns ==> sums_to(
                    *plus,
                    *times,
                    zero,
                    a@.cells[p],
                    b@.column(q),
                    inner as nat,
                    #[trigger] data@[p]@[q],
                ),
        decreases rows - i,
    {
        let mut line: Vec<T> = Vec::new();
        let mut j: usize = 0;
        while j < columns
            invariant
                j <= columns,
                i < rows,
                rows == a@.rows(),
                inner == a@.columns(),
                inner == b@.rows(),
                columns == b@.columns(),
                a@.wf(),
                b@.wf(),
                forall|x: T, y: T| plus.requires((x, y)),
                forall|x: T, y: T| times.requires((x, y)),
                line@.len() == j,
                forall|q: int|
                    0 <= q < j ==> sums_to(
                        *plus,
                        *times,
                        zero,
                        a@.cells[i as int],
                        b@.column(q),
                        inner as nat,
                        #[trigger] line@[q],
                    ),
            decreases columns - j,
        {
            let mut total: T = zero;
            let mut k: usize = 0;
            while k < inner
                invariant
                    k <= inner,
                    i < rows,
                    j < columns,
                    rows == a@.rows(),
                    inner == a@.columns(),
                    inner == b@.rows(),
                    columns == b@.columns(),
                    a@.wf(),
                    b@.wf(),
                    forall|x: T, y: T| plus.requires((x, y)),
                    forall|x: T, y: T| times.requires((x, y)),
                    sums_to(
                        *plus,
                        *times,
                        zero,
                        a@.cells[i as int],
                        b@.column(j as int),
                        k as nat,
                        total,
                    ),
                decreases inner - k,
            {
                let term: T = times(a.cell(i, k), b.cell(k, j));
                let next: T = plus(total, term);
                proof {
                    assert(times.ensures(
                        (a@.cells[i as int][k as int], b@.column(j as int)[k as int]),
                        term,
                    ));
                    assert(plus.ensures((total, term), next));
                }
                total = next;
                k = k + 1;
            }
            line.push(total);
            j = j + 1;
        }
        data.push(line);
        i = i + 1;
    }
    let c = Matrix::assemble(columns, data);
    Ok(c)
}

/// The sum of the products of the entries of column `p` with those of column
/// `q`, from the top, with the scalar arithmetic supplied by the caller. Both
/// columns must exist.
pub fn column_product<T: Copy, A: Fn(T, T) -> T, M: Fn(T, T) -> T>(
    m: &Matrix<T>,
    p: usize,
    q: usize,
    zero: T,
    plus: &A,
    times: &M,
) -> (r: Result<T, MatrixError>)
    requires
        forall|x: T, y: T| plus.requires((x, y)),
        forall|x: T, y: T| times.requires((x, y)),
    ensures
        r is Ok <==> p < m@.columns() && q < m@.columns(),
        r matches Ok(total) ==> sums_to(
            *plus,
            *times,
            zero,
            m@.column(p as int),
            m@.column(q as int),
            m@.rows(),
            total,
        ),
        r matches Err(e) ==> e == MatrixError::IndexOutOfBounds,
{
    let rows: usize = m.rows();
    let columns: usize = m.columns();
    if p >= columns || q >= columns {
        return Err(MatrixError::IndexOutOfBounds);
    }
    let mut total: T = zero;
    let mut i: usize = 0;
    while i < rows
        invariant
            i <= rows,
            rows == m@.rows(),
            columns == m@.columns(),
            p < columns,
            q < columns,
            forall|x: T, y: T| plus.requires((x, y)),
            forall|x: T, y: T| times.requires((x, y)),
            sums_to(*plus, *times, zero, m@.column(p as int), m@.column(q as int), i as nat, total),
        decreases rows - i,
    {
        let term: T = times(m.cell(i, p), m.cell(i, q));
        let next: T = plus(total, term);
        proof {
            assert(times.ensures(
                (m@.column(p as int)[i as int], m@.column(q as int)[i as int]),
                term,
            ));
            assert(plus.ensures((total, term), next));
        }
        total = next;
        i = i + 1;
    }
    Ok(total)
}

/// `(a, b)` is a pair that the rotation with cosine `c` and sine `s` can make
/// of the pair `(x, y)`: `a` is `c * x - s * y` and `b` is `s * x + c * y`,
/// each product and each sum as the operations give it.
pub open spec fn turned<T, A: Fn(T, T) -> T, S: Fn(T, T) -> T, M: Fn(T, T) -> T>(
    plus: A,
    minus: S,
    times: M,
    c: T,
    s: T,
    x: T,
    y: T,
    a: T,
    b: T,
) -> bool {
    exists|cx: T, sy: T, sx: T, cy: T|
        times.ensures((c, x), cx) && times.ensures((s, y), sy) && times.ensures((s, x), sx)
            && times.ensures((c, y), cy) && #[trigger] minus.ensures((cx, sy), a)
            && #[trigger] plus.ensures((sx, cy), b)
}

/// `r` is what the rotation with cosine `c` and sine `s` of the columns `p`
/// and `q` can make of `m`: the same shape, in each row the two entries
/// turned, and every other entry as it was.
pub open spec fn columns_turned<T, A: Fn(T, T) -> T, S: Fn(T, T) -> T, M: Fn(T, T) -> T>(
    plus: A,
    minus: S,
    times: M,
    c: T,
    s: T,
    m: Grid<T>,
    p: int,
    q: int,
    r: Grid<T>,
) -> bool {
    &&& r.wf()
    &&& r.rows() == m.rows()
    &&& r.columns() == m.columns()
    &&& forall|i: int, j: int|
        0 <= i < m.rows() && 0 <= j < m.columns() && j != p && j != q
            ==> #[trigger] r.cells[i][j] == m.cells[i][j]
    &&& forall|i: int|
        0 <= i < m.rows() ==> turned(
            plus,
            minus,
            times,
            c,
            s,
            m.cells[i][p],
            m.cells[i][q],
            (#[trigger] r.cells[i])[p],
            r.cells[i][q],
        )
}

/// Rotates the columns `p` and `q` of `m` by the rotation with cosine `c` and
/// sine `s`, with the scalar arithmetic supplied by the caller. The two
/// columns must exist and differ.
pub fn rotate_columns<T: Copy, A: Fn(T, T) -> T, S: Fn(T, T) -> T, M: Fn(T, T) -> T>(
    m: &Matrix<T>,
    p: usize,
    q: usize,
    c: T,
    s: T,
    plus: &A,
    minus: &S,
    times: &M,
) -> (r: Result<Matrix<T>, MatrixError>)
    requires
        forall|x: T, y: T| plus.requires((x, y)),
        forall|x: T, y: T| minus.requires((x, y)),
        forall|x: T, y: T| times.requires((x, y)),
    ensures
        r is Ok <==> p < m@.columns() && q < m@.columns() && p != q,
        r matches Ok(rotated) ==> columns_turned(
            *plus,
            *minus,
            *times,
            c,
            s,
            m@,
            p as int,
            q as int,
            rotated@,
        ),
        r matches Err(e) ==> e == MatrixError::IndexOutOfBounds,
{
    let rows: usize = m.rows();
    let columns: usize = m.columns();
    if p >= columns || q >= columns || p == q {
        return Err(MatrixError::IndexOutOfBounds);
    }
    let mut data: Vec<Vec<T>> = Vec::new();
    let mut i: usize = 0;
    while i < rows
        invariant
            i <= rows,
            rows == m@.rows(),
            columns == m@.columns(),
            m@.wf(),
            p < columns,
            q < columns,
            p != q,
            forall|x: T, y: T| plus.requires((x, y)),
            forall|x: T, y: T| minus.requires((x, y)),
            forall|x: T, y: T| times.requires((x, y)),
            data@.len() == i,
            forall|k: int| 0 <= k < i ==> (#[trigger] data@[k])@.len() == columns,
            forall|k: int, j: int|
                0 <= k < i && 0 <= j < columns && j != p && j != q ==> #[trigger] data@[k]@[j]
                    == m@.cells[k][j],
            forall|k: int|
                0 <= k < i ==> turned(
                    *plus,
                    *minus,
                    *times,
                    c,
                    s,
                    m@.cells[k][p as int],
                    m@.cells[k][q as int],
                    (#[trigger] data@[k])@[p as int],
                    data@[k]@[q as int],
                ),
        decreases rows - i,
    {
        let x: T = m.cell(i, p);
        let y: T = m.cell(i, q);
        let cx: T = times(c, x);
        let sy: T = times(s, y);
        let sx: T = times(s, x);
        let cy: T = times(c, y);
        let a: T = minus(cx, sy);
        let b: T = plus(sx, cy);
        proof {
            assert(minus.ensures((cx, sy), a) && plus.ensures((sx, cy), b));
            assert(turned(*plus, *minus, *times, c, s, x, y, a, b));
        }
        let mut line: Vec<T> = Vec::new();
        let mut j: usize = 0;
        while j < columns
            invariant
                j <= columns,
                i < rows,
                rows == m@.rows(),
                columns == m@.columns(),
                m@.wf(),
                p < columns,
                q < columns,
                p != q,
                line@.len() == j,
                forall|t: int|
                    0 <= t < j && t != p && t != q ==> #[trigger] line@[t] == m@.cells[i as int][t],
                p < j ==> line@[p as int] == a,
                q < j ==> line@[q as int] == b,
            decreases columns - j,
        {
            if j == p {
                line.push(a);
            } else if j == q {
                line.push(b);
            } else {
                line.push(m.cell(i, j));
            }
            j = j + 1;
        }
        data.push(line);
        i = i + 1;
    }
    Ok(Matrix::assemble(columns, data))
}

/// Transposing twice gives the matrix back, entry for entry.
pub proof fn lemma_transpose_twice<T>(g: Grid<T>)
    requires
        g.wf(),
    ensures
        g.transposed().transposed() == g,
{
    let t = g.transposed();
    let tt = t.transposed();
    assert forall|i: int| 0 <= i < g.cells.len() implies #[trigger] tt.cells[i] == g.cells[i] by {
        assert(tt.cells[i] == t.column(i));
        assert forall|j: int| 0 <= j < g.width implies t.column(i)[j] == g.cells[i][j] by {
            assert(t.cells[j] == g.column(j));
        }
        assert(g.cells[i].len() == g.width);
        assert(tt.cells[i] =~= g.cells[i]);
    }
    assert(tt.cells =~= g.cells);
}

/// A sum of products stays one when the two sequences change places,
/// provided that `times` gives the same results with its operands exchanged.
pub proof fn lemma_sums_to_exchanged<T, A: Fn(T, T) -> T, M: Fn(T, T) -> T>(
    plus: A,
    times: M,
    zero: T,
    xs: Seq<T>,
    ys: Seq<T>,
    n: nat,
    total: T,
)
    requires
        sums_to(plus, times, zero, xs, ys, n, total),
        forall|x: T, y: T, p: T| #[trigger] times.ensures((x, y), p) ==> times.ensures((y, x), p),
    ensures
        sums_to(plus, times, zero, ys, xs, n, total),
    decreases n,
{
    if n > 0 {
        let (before, term): (T, T) = choose|before: T, term: T|
            sums_to(plus, times, zero, xs, ys, (n - 1) as nat, before) && times.ensures(
                (xs[n - 1], ys[n - 1]),
                term,
            ) && #[trigger] plus.ensures((before, term), total);
        lemma_sums_to_exchanged(plus, times, zero, xs, ys, (n - 1) as nat, before);
        assert(times.ensures((ys[n - 1], xs[n - 1]), term));
        assert(plus.ensures((before, term), total));
    }
}

/// The transpose of a product has the columns of the second factor as its
/// rows and the rows of the first factor as its columns.
pub proof fn lemma_product_transposed_shape<T, A: Fn(T, T) -> T, M: Fn(T, T) -> T>(
    plus: A,
    times: M,
    zero: T,
    a: Grid<T>,
    b: Grid<T>,
    c: Grid<T>,
)
    requires
        a.wf(),
        b.wf(),
        a.columns() == b.rows(),
        is_product(plus, times, zero, a, b, c),
    ensures
        c.transposed().wf(),
        c.transposed().rows() == b.columns(),
        c.transposed().columns() == a.rows(),
{
}

/// The transpose of a product of `a` and `b` is a product of the transpose of
/// `b` and the transpose of `a`, provided that `times` gives the same results
/// with its operands exchanged.
pub proof fn lemma_product_transposed<T, A: Fn(T, T) -> T, M: Fn(T, T) -> T>(
    plus: A,
    times: M,
    zero: T,
    a: Grid<T>,
    b: Grid<T>,
    c: Grid<T>,
)
    requires
        a.wf(),
        b.wf(),
        a.columns() == b.rows(),
        is_product(plus, times, zero, a, b, c),
        forall|x: T, y: T, p: T| #[trigger] times.ensures((x, y), p) ==> times.ensures((y, x), p),
    ensures
        is_product(plus, times, zero, b.transposed(), a.transposed(), c.transposed()),
{
    let bt = b.transposed();
    let at = a.transposed();
    let ct = c.transposed();
    assert forall|j: int, i: int| 0 <= j < bt.rows() && 0 <= i < at.columns() implies sums_to(
        plus,
        times,
        zero,
        bt.cells[j],
        at.column(i),
        bt.columns(),
        #[trigger] ct.cells[j][i],
    ) by {
        assert(ct.cells[j] == c.column(j));
        assert(ct.cells[j][i] == c.cells[i][j]);
        assert(bt.cells[j] == b.column(j));
        assert forall|k: int| 0 <= k < a.width implies at.column(i)[k] == a.cells[i][k] by {
            assert(at.cells[k] == a.column(k));
        }
        assert(a.cells[i].len() == a.width);
        assert(at.column(i) =~= a.cells[i]);
        lemma_sums_to_exchanged(
            plus,
            times,
            zero,
            a.cells[i],
            b.column(j),
            a.columns(),
            c.cells[i][j],
        );
    }
}

} // verus!
