//! Laying out joint matrices as the rows of a texture

use vstd::prelude::*;

verus! {

/// The rows of the texture that stores the joint matrices, each matrix given by its four
/// columns `C`.
///
/// This is a way to simulate dynamic storage in a shader: the matrices are stored as one long
/// texture where each x coordinate is a matrix, and the columns of that matrix are the values at
/// y coordinates 0 through 3. So row `k` holds column `k` of every matrix, in order.
pub fn joint_texture_rows<C: Copy>(matrices: &Vec<[C; 4]>) -> (rows: Vec<Vec<C>>)
    ensures
        rows@.len() == 4,
        forall|k: int| 0 <= k < 4 ==> (#[trigger] rows@[k])@.len() == matrices@.len(),
        forall|k: int, i: int|
            0 <= k < 4 && 0 <= i < matrices@.len() ==> #[trigger] rows@[k]@[i] == matrices@[i][k],
{
    let mut col0: Vec<C> = Vec::new();
    let mut col1: Vec<C> = Vec::new();
    let mut col2: Vec<C> = Vec::new();
    let mut col3: Vec<C> = Vec::new();
    let mut i: usize = 0;
    while i < matrices.len()
        invariant
            i <= matrices@.len(),
            col0@.len() == i,
            col1@.len() == i,
            col2@.len() == i,
            col3@.len() == i,
            forall|j: int|
                0 <= j < i ==> {
                    &&& #[trigger] col0@[j] == matrices@[j][0]
                    &&& col1@[j] == matrices@[j][1]
                    &&& col2@[j] == matrices@[j][2]
                    &&& col3@[j] == matrices@[j][3]
                },
        decreases matrices.len() - i,
    {
        let columns = matrices[i];
        col0.push(columns[0]);
        col1.push(columns[1]);
        col2.push(columns[2]);
        col3.push(columns[3]);
        i += 1;
    }
    let mut rows: Vec<Vec<C>> = Vec::new();
    rows.push(col0);
    rows.push(col1);
    rows.push(col2);
    rows.push(col3);
    assert forall|k: int, j: int| 0 <= k < 4 && 0 <= j < matrices@.len() implies #[trigger] rows@[k]@[j]
        == matrices@[j][k] by {
        assert(col0@[j] == matrices@[j][0]);
        if k == 0 {
        } else if k == 1 {
        } else if k == 2 {
        } else {
        }
    }
    rows
}

} // verus!
