//! Tables held as vectors of rows, and numbers cut to 32 bits.

use vstd::prelude::*;

verus! {

/// A table as a sequence of rows of plain values.
pub open spec fn vista_tabla<T>(t: Seq<Vec<T>>) -> Seq<Seq<T>> {
    Seq::new(t.len(), |i: int| t[i]@)
}

/// The table has `n` rows of `n` entries each.
pub open spec fn es_cuadrada<T>(t: Seq<Seq<T>>, n: int) -> bool {
    &&& t.len() == n
    &&& forall|i: int| 0 <= i < n ==> (#[trigger] t[i]).len() == n
}

/// Whether the table has `n` rows of `n` entries each.
pub fn es_tabla_cuadrada<T>(t: &Vec<Vec<T>>, n: usize) -> (b: bool)
    ensures
        b == es_cuadrada(vista_tabla(t@), n as int),
{
    if t.len() != n {
        return false;
    }
    let mut i: usize = 0;
    while i < n
        invariant
            t@.len() == n,
            i <= n,
            forall|a: int| 0 <= a < i ==> (#[trigger] vista_tabla(t@)[a]).len() == n,
        decreases n - i,
    {
        if t[i].len() != n {
            assert(vista_tabla(t@)[i as int].len() != n);
            return false;
        }
        assert(vista_tabla(t@)[i as int].len() == n);
        i += 1;
    }
    true
}

/// Writes `v` into row `i`, column `j` of the table and leaves every other
/// entry as it was.
pub fn poner<T>(t: &mut Vec<Vec<T>>, i: usize, j: usize, v: T)
    requires
        i < old(t)@.len(),
        j < old(t)@[i as int]@.len(),
    ensures
        final(t)@.len() == old(t)@.len(),
        final(t)@[i as int]@ == old(t)@[i as int]@.update(j as int, v),
        forall|a: int| 0 <= a < old(t)@.len() && a != i ==> final(t)@[a] == old(t)@[a],
{
    t[i][j] = v;
}

/// An `n` by `n` table with `v` in every entry.
pub fn tabla_uniforme<T: Copy>(n: usize, v: T) -> (t: Vec<Vec<T>>)
    ensures
        es_cuadrada(vista_tabla(t@), n as int),
        t@.len() == n,
        forall|i: int| 0 <= i < n ==> (#[trigger] t@[i])@.len() == n,
        forall|i: int, j: int| 0 <= i < n && 0 <= j < n ==> #[trigger] t@[i]@[j] == v,
{
    let mut t: Vec<Vec<T>> = Vec::new();
    let mut i: usize = 0;
    while i < n
        invariant
            i <= n,
            t@.len() == i,
            forall|a: int| 0 <= a < i ==> (#[trigger] t@[a])@.len() == n,
            forall|a: int, b: int| 0 <= a < i && 0 <= b < n ==> #[trigger] t@[a]@[b] == v,
        decreases n - i,
    {
        let mut fila: Vec<T> = Vec::new();
        let mut j: usize = 0;
        while j < n
            invariant
                j <= n,
                fila@.len() == j,
                forall|b: int| 0 <= b < j ==> #[trigger] fila@[b] == v,
            decreases n - j,
        {
            fila.push(v);
            j += 1;
        }
        t.push(fila);
        i += 1;
    }
    t
}

/// `x` as a 32-bit count or cost: itself, or the largest value if it does
/// not fit.
pub open spec fn tope(x: int) -> u32 {
    if x >= u32::MAX {
        u32::MAX
    } else {
        x as u32
    }
}

} // verus!
