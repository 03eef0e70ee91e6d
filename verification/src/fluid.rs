//! Flow-solver settings, the index lookups of a compressed-sparse-row matrix
//! pattern, and the particle tracker's random number source.
use vstd::prelude::*;

verus! {

/// Available numerical flux schemes for compressible flow.
#[derive(Debug, Clone, Copy)]
pub enum FluxScheme {
    /// Roe's approximate Riemann solver.
    Roe,
    /// HLLC (Harten-Lax-van Leer-Contact) approximate Riemann solver.
    Hllc,
    /// AUSM+ (Advection Upstream Splitting Method).
    Ausm,
}

/// Enumeration of available wall function formulations.
#[derive(Debug, Clone, Copy, PartialEq)]
pub enum WallFunctionType {
    /// Standard log-law wall function with a viscous sublayer / log-law switch.
    Standard,
    /// Spalding's single-formula wall function.
    Spalding,
}

/// Level Set solver for tracking phase interfaces.
pub struct LevelSetSolver {
    /// Number of reinitialization iterations.
    pub reinit_iterations: usize,
}

impl LevelSetSolver {
    /// Creates a new Level Set solver.
    pub fn new(reinit_iterations: usize) -> (s: Self)
        ensures
            s.reinit_iterations == reinit_iterations,
    {
        LevelSetSolver { reinit_iterations }
    }
}

// ---------------------------------------------------------------------------
// compressed-sparse-row pattern lookups
// ---------------------------------------------------------------------------

/// The first position `k` in `from..end` with `col_idx[k] == col`.
pub open spec fn first_position(col_idx: Seq<usize>, from: int, end: int, col: usize) -> Option<int>
    decreases end - from,
{
    if from >= end {
        None
    } else if col_idx[from] == col {
        Some(from)
    } else {
        first_position(col_idx, from + 1, end, col)
    }
}

/// Row `row` of the pattern can be scanned: it has a range, and the range
/// lies within the column list when it is not empty.
pub open spec fn row_scannable(row_ptr: Seq<usize>, col_idx: Seq<usize>, row: int) -> bool {
    &&& 0 <= row
    &&& row + 1 < row_ptr.len()
    &&& row_ptr[row] < row_ptr[row + 1] ==> row_ptr[row + 1] <= col_idx.len()
}

/// Where column `col` is stored in row `row`, or `default` when the row does
/// not hold it.
pub open spec fn csr_position(row_ptr: Seq<usize>, col_idx: Seq<usize>, row: int, col: usize, default: int) -> int {
    match first_position(col_idx, row_ptr[row] as int, row_ptr[row + 1] as int, col) {
        Some(k) => k,
        None => default,
    }
}

proof fn lemma_first_position_range(col_idx: Seq<usize>, from: int, end: int, col: usize)
    ensures
        first_position(col_idx, from, end, col) matches Some(k) ==> from <= k < end && col_idx[k]
            == col,
    decreases end - from,
{
    if from < end && col_idx[from] != col {
        lemma_first_position_range(col_idx, from + 1, end, col);
    }
}

/// The position of column `col` in row `row`: the first entry of the row
/// that holds it, or `default` when none does.
pub fn find_in_row(row_ptr: &Vec<usize>, col_idx: &Vec<usize>, row: usize, col: usize, default: usize) -> (k: usize)
    requires
        row_scannable(row_ptr@, col_idx@, row as int),
    ensures
        k == csr_position(row_ptr@, col_idx@, row as int, col, default as int),
{
    assert(row + 1 < row_ptr.len());
    let start = row_ptr[row];
    let end = row_ptr[row + 1];
    let mut idx = start;
    while idx < end
        invariant
            start == row_ptr@[row as int],
            end == row_ptr@[row + 1],
            start <= idx,
            start < end ==> end <= col_idx.len(),
            first_position(col_idx@, start as int, end as int, col) == first_position(
                col_idx@,
                idx as int,
                end as int,
                col,
            ),
        decreases end - idx,
    {
        if col_idx[idx] == col {
            assert(first_position(col_idx@, idx as int, end as int, col) == Some(idx as int));
            return idx;
        }
        idx = idx + 1;
    }
    assert(first_position(col_idx@, idx as int, end as int, col) is None);
    default
}

/// For every row `i < n`, the position of its diagonal entry, or `0` when the
/// row holds none.
pub fn diagonal_positions(n: usize, row_ptr: &Vec<usize>, col_idx: &Vec<usize>) -> (d: Vec<usize>)
    requires
        forall|i: int| 0 <= i < n ==> row_scannable(row_ptr@, col_idx@, i),
    ensures
        d.len() == n,
        forall|i: int| 0 <= i < n ==> d@[i] == csr_position(row_ptr@, col_idx@, i, i as usize, 0),
{
    let mut d: Vec<usize> = Vec::new();
    let mut i: usize = 0;
    while i < n
        invariant
            i <= n,
            d.len() == i,
            forall|j: int| 0 <= j < n ==> row_scannable(row_ptr@, col_idx@, j),
            forall|j: int| 0 <= j < i ==> d@[j] == csr_position(row_ptr@, col_idx@, j, j as usize, 0),
        decreases n - i,
    {
        let k = find_in_row(row_ptr, col_idx, i, i, 0);
        d.push(k);
        i = i + 1;
    }
    d
}

/// For every interior face `(owner, neighbour)`, the positions of the
/// owner-to-neighbour and neighbour-to-owner entries; a missing entry is
/// reported as the start of its row.
pub fn face_positions(row_ptr: &Vec<usize>, col_idx: &Vec<usize>, faces: &Vec<(usize, usize)>) -> (r: Vec<(usize, usize)>)
    requires
        forall|f: int|
            0 <= f < faces.len() ==> row_scannable(row_ptr@, col_idx@, (#[trigger] faces@[f]).0 as int)
                && row_scannable(row_ptr@, col_idx@, faces@[f].1 as int),
    ensures
        r.len() == faces.len(),
        forall|f: int|
            0 <= f < faces.len() ==> {
                let (o, n) = #[trigger] faces@[f];
                r@[f] == (
                    csr_position(row_ptr@, col_idx@, o as int, n, row_ptr@[o as int] as int) as usize,
                    csr_position(row_ptr@, col_idx@, n as int, o, row_ptr@[n as int] as int) as usize,
                )
            },
{
    let mut r: Vec<(usize, usize)> = Vec::new();
    let mut f: usize = 0;
    while f < faces.len()
        invariant
            f <= faces.len(),
            r.len() == f,
            forall|g: int|
                0 <= g < faces.len() ==> row_scannable(row_ptr@, col_idx@, (#[trigger] faces@[g]).0 as int)
                    && row_scannable(row_ptr@, col_idx@, faces@[g].1 as int),
            forall|g: int|
                0 <= g < f ==> {
                    let (o, n) = #[trigger] faces@[g];
                    r@[g] == (
                        csr_position(row_ptr@, col_idx@, o as int, n, row_ptr@[o as int] as int) as usize,
                        csr_position(row_ptr@, col_idx@, n as int, o, row_ptr@[n as int] as int) as usize,
                    )
                },
        decreases faces.len() - f,
    {
        let (owner, neigh) = faces[f];
        let on = find_in_row(row_ptr, col_idx, owner, neigh, row_ptr[owner]);
        let no = find_in_row(row_ptr, col_idx, neigh, owner, row_ptr[neigh]);
        r.push((on, no));
        f = f + 1;
    }
    r
}

/// A position found in a row holds the column looked for and lies in the row.
pub proof fn law_found_position_holds_column(row_ptr: Seq<usize>, col_idx: Seq<usize>, row: int, col: usize)
    requires
        row_scannable(row_ptr, col_idx, row),
    ensures
        first_position(col_idx, row_ptr[row] as int, row_ptr[row + 1] as int, col) matches Some(k)
            ==> row_ptr[row] <= k < row_ptr[row + 1] && col_idx[k] == col,
{
    lemma_first_position_range(col_idx, row_ptr[row] as int, row_ptr[row + 1] as int, col);
}

// ---------------------------------------------------------------------------
// boundary patch tables
// ---------------------------------------------------------------------------

/// A named group of boundary faces.
pub struct BoundaryPatch {
    pub name: String,
    pub face_ids: Vec<usize>,
}

impl View for BoundaryPatch {
    type V = (Seq<char>, Seq<usize>);

    open spec fn view(&self) -> (Seq<char>, Seq<usize>) {
        (self.name@, self.face_ids@)
    }
}

/// The first position of `n` in `names`.
pub open spec fn name_position(names: Seq<Seq<char>>, n: Seq<char>) -> Option<int>
    decreases names.len(),
{
    if names.len() == 0 {
        None
    } else {
        match name_position(names.drop_last(), n) {
            Some(i) => Some(i),
            None => if names.last() == n {
                Some(names.len() - 1)
            } else {
                None
            },
        }
    }
}

/// The distinct patch names in order of first appearance, and for each of
/// the `num_faces` faces the position of the last patch that lists it.
pub open spec fn patch_tables(patches: Seq<(Seq<char>, Seq<usize>)>, num_faces: nat) -> (
    Seq<Seq<char>>,
    Seq<Option<int>>,
)
    decreases patches.len(),
{
    if patches.len() == 0 {
        (Seq::empty(), Seq::new(num_faces, |f: int| None::<int>))
    } else {
        let (names, cache) = patch_tables(patches.drop_last(), num_faces);
        let (name, faces) = patches.last();
        let (names2, idx) = match name_position(names, name) {
            Some(i) => (names, i),
            None => (names.push(name), names.len() as int),
        };
        (
            names2,
            Seq::new(
                num_faces,
                |f: int|
                    if faces.contains(f as usize) {
                        Some(idx)
                    } else {
                        cache[f]
                    },
            ),
        )
    }
}

pub open spec fn opt_int(o: Option<usize>) -> Option<int> {
    match o {
        Some(i) => Some(i as int),
        None => None,
    }
}

pub open spec fn patch_views(ps: Seq<BoundaryPatch>) -> Seq<(Seq<char>, Seq<usize>)> {
    ps.map_values(|p: BoundaryPatch| p@)
}

proof fn lemma_patch_tables_len(patches: Seq<(Seq<char>, Seq<usize>)>, num_faces: nat)
    ensures
        patch_tables(patches, num_faces).1.len() == num_faces,
        patch_tables(patches, num_faces).0.len() <= patches.len(),
        forall|f: int|
            0 <= f < num_faces ==> (#[trigger] patch_tables(patches, num_faces).1[f] matches Some(
                i,
            ) ==> 0 <= i < patch_tables(patches, num_faces).0.len()),
    decreases patches.len(),
{
    if patches.len() > 0 {
        lemma_patch_tables_len(patches.drop_last(), num_faces);
        let (names, cache) = patch_tables(patches.drop_last(), num_faces);
        lemma_name_position(names, patches.last().0);
    }
}

proof fn lemma_name_position(names: Seq<Seq<char>>, n: Seq<char>)
    ensures
        name_position(names, n) matches Some(i) ==> 0 <= i < names.len() && names[i] == n,
        name_position(names, n) is None ==> forall|i: int| 0 <= i < names.len() ==> names[i] != n,
    decreases names.len(),
{
    if names.len() > 0 {
        lemma_name_position(names.drop_last(), n);
        if name_position(names, n) is None {
            assert forall|i: int| 0 <= i < names.len() implies names[i] != n by {
                if i < names.len() - 1 {
                    assert(names.drop_last()[i] == names[i]);
                }
            }
        }
    }
}

proof fn lemma_contains_push(s: Seq<usize>, a: usize, x: usize)
    ensures
        s.push(a).contains(x) == (s.contains(x) || a == x),
{
    if s.contains(x) {
        let k = choose|k: int| 0 <= k < s.len() && s[k] == x;
        assert(s.push(a)[k] == x);
    }
    if a == x {
        assert(s.push(a)[s.len() as int] == x);
    }
    if s.push(a).contains(x) && a != x {
        let k = choose|k: int| 0 <= k < s.len() + 1 && s.push(a)[k] == x;
        assert(s[k] == x);
    }
}

fn find_name(names: &Vec<String>, n: &String) -> (r: Option<usize>)
    ensures
        opt_int(r) == name_position(names@.map_values(|s: String| s@), n@),
{
    let ghost v = names@.map_values(|s: String| s@);
    let mut i: usize = 0;
    while i < names.len()
        invariant
            i <= names.len(),
            v == names@.map_values(|s: String| s@),
            name_position(v.take(i as int), n@) is None,
        decreases names.len() - i,
    {
        proof {
            assert(v.take(i + 1).drop_last() =~= v.take(i as int));
        }
        if crate::text::string_eq(&names[i], n) {
            proof {
                assert(name_position(v.take(i + 1), n@) == Some(i as int));
                lemma_name_position_prefix(v, i + 1, n@);
            }
            return Some(i);
        }
        i = i + 1;
    }
    proof {
        assert(v.take(names.len() as int) =~= v);
    }
    None
}

/// A name found in a prefix is found at the same place in the whole list.
proof fn lemma_name_position_prefix(v: Seq<Seq<char>>, k: int, n: Seq<char>)
    requires
        0 <= k <= v.len(),
        name_position(v.take(k), n) is Some,
    ensures
        name_position(v, n) == name_position(v.take(k), n),
    decreases v.len() - k,
{
    if k < v.len() {
        assert(v.take(k + 1).drop_last() =~= v.take(k));
        lemma_name_position_prefix(v, k + 1, n);
    } else {
        assert(v.take(k) =~= v);
    }
}

/// The patch-name list and the face-to-patch table of a mesh with
/// `num_faces` faces: each patch name once, in order of first appearance, and
/// for each face the position of the name of the last patch that lists it.
/// Face ids at or beyond `num_faces` are ignored.
pub fn face_patch_tables(num_faces: usize, patches: &Vec<BoundaryPatch>) -> (r: (
    Vec<String>,
    Vec<Option<usize>>,
))
    ensures
        r.0@.map_values(|s: String| s@) == patch_tables(patch_views(patches@), num_faces as nat).0,
        r.1@.map_values(|o: Option<usize>| opt_int(o)) == patch_tables(
            patch_views(patches@),
            num_faces as nat,
        ).1,
        r.1.len() == num_faces,
        forall|f: int| 0 <= f < r.1.len() ==> (#[trigger] r.1@[f] matches Some(i) ==> i < r.0.len()),
{
    let ghost pv = patch_views(patches@);
    let mut names: Vec<String> = Vec::new();
    let mut cache: Vec<Option<usize>> = Vec::new();
    let mut f: usize = 0;
    while f < num_faces
        invariant
            f <= num_faces,
            cache.len() == f,
            forall|g: int| 0 <= g < f ==> cache@[g] is None,
        decreases num_faces - f,
    {
        cache.push(None);
        f = f + 1;
    }
    proof {
        assert(names@.map_values(|s: String| s@) =~= patch_tables(pv.take(0), num_faces as nat).0);
        assert(cache@.map_values(|o: Option<usize>| opt_int(o)) =~= patch_tables(
            pv.take(0),
            num_faces as nat,
        ).1);
    }
    let mut p: usize = 0;
    while p < patches.len()
        invariant
            p <= patches.len(),
            pv == patch_views(patches@),
            cache.len() == num_faces,
            names.len() <= p,
            names@.map_values(|s: String| s@) == patch_tables(pv.take(p as int), num_faces as nat).0,
            cache@.map_values(|o: Option<usize>| opt_int(o)) == patch_tables(
                pv.take(p as int),
                num_faces as nat,
            ).1,
        decreases patches.len() - p,
    {
        let ghost before = patch_tables(pv.take(p as int), num_faces as nat);
        proof {
            assert(pv.take(p + 1).drop_last() =~= pv.take(p as int));
            assert(pv.take(p + 1).last() == patches@[p as int]@);
        }
        let patch = &patches[p];
        proof {
            lemma_patch_tables_len(pv.take(p as int), num_faces as nat);
            lemma_name_position(before.0, patch.name@);
        }
        let idx = match find_name(&names, &patch.name) {
            Some(i) => i,
            None => {
                let ghost old_names = names@;
                names.push(patch.name.clone());
                proof {
                    assert(names@.map_values(|s: String| s@) =~= old_names.map_values(
                        |s: String| s@,
                    ).push(patch.name@));
                }
                names.len() - 1
            },
        };
        let ghost faces = patch.face_ids@;
        let ghost after = patch_tables(pv.take(p + 1), num_faces as nat);
        assert(names@.map_values(|s: String| s@) == after.0);
        assert(after.1 == Seq::new(
            num_faces as nat,
            |f: int|
                if faces.contains(f as usize) {
                    Some(idx as int)
                } else {
                    before.1[f]
                },
        ));
        let mut j: usize = 0;
        while j < patch.face_ids.len()
            invariant
                j <= patch.face_ids.len(),
                faces == patch.face_ids@,
                cache.len() == num_faces,
                before.1.len() == num_faces,
                forall|g: int|
                    0 <= g < num_faces ==> opt_int(#[trigger] cache@[g]) == (if faces.take(
                        j as int,
                    ).contains(g as usize) {
                        Some(idx as int)
                    } else {
                        before.1[g]
                    }),
            decreases patch.face_ids.len() - j,
        {
            let fid = patch.face_ids[j];
            let ghost old_cache = cache@;
            if fid < num_faces {
                cache.set(fid, Some(idx));
            }
            proof {
                assert(faces.take(j + 1) =~= faces.take(j as int).push(fid));
                assert forall|g: int| 0 <= g < num_faces implies opt_int(#[trigger] cache@[g]) == (
                if faces.take(j + 1).contains(g as usize) {
                    Some(idx as int)
                } else {
                    before.1[g]
                }) by {
                    lemma_contains_push(faces.take(j as int), fid, g as usize);
                    if g != fid as int {
                        assert(cache@[g] == old_cache[g]);
                    }
                }
            }
            j = j + 1;
        }
        proof {
            assert(faces.take(faces.len() as int) =~= faces);
            assert(cache@.map_values(|o: Option<usize>| opt_int(o)) =~= after.1);
        }
        p = p + 1;
    }
    proof {
        assert(pv.take(patches.len() as int) =~= pv);
        lemma_patch_tables_len(pv, num_faces as nat);
        assert forall|f: int| 0 <= f < cache.len() implies (#[trigger] cache@[f] matches Some(i)
            ==> i < names.len()) by {
            assert(cache@.map_values(|o: Option<usize>| opt_int(o))[f] == opt_int(cache@[f]));
        }
    }
    (names, cache)
}

/// The name of the patch that face `face_id` belongs to, read from the
/// tables of [`face_patch_tables`]; `None` for a face beyond the table or on
/// no patch.
pub fn face_patch<'a>(names: &'a Vec<String>, cache: &Vec<Option<usize>>, face_id: usize) -> (r: Option<&'a String>)
    requires
        forall|f: int| 0 <= f < cache.len() ==> (#[trigger] cache@[f] matches Some(i) ==> i < names.len()),
    ensures
        match r {
            Some(s) => face_id < cache.len() && (cache@[face_id as int] matches Some(i) && *s
                == names@[i as int]),
            None => face_id >= cache.len() || cache@[face_id as int] is None,
        },
{
    if face_id < cache.len() {
        match cache[face_id] {
            Some(i) => Some(&names[i]),
            None => None,
        }
    } else {
        None
    }
}

/// The patch-name list holds each name once.
pub proof fn law_patch_names_distinct(patches: Seq<(Seq<char>, Seq<usize>)>, num_faces: nat)
    ensures
        forall|i: int, k: int|
            0 <= i < k < patch_tables(patches, num_faces).0.len() ==> patch_tables(
                patches,
                num_faces,
            ).0[i] != patch_tables(patches, num_faces).0[k],
    decreases patches.len(),
{
    if patches.len() > 0 {
        law_patch_names_distinct(patches.drop_last(), num_faces);
        let names = patch_tables(patches.drop_last(), num_faces).0;
        lemma_name_position(names, patches.last().0);
    }
}

/// The state used in place of a zero seed.
pub const DEFAULT_SEED: u64 = 0x5DEECE66D;

/// One xorshift step: shifts 13 left, 7 right, 17 left.
pub open spec fn xorshift(x: u64) -> u64 {
    let a = x ^ ((x << 13u64) as u64);
    let b = a ^ (a >> 7u64);
    b ^ ((b << 17u64) as u64)
}

/// Minimal xorshift64 pseudo-random number generator.
#[derive(Debug)]
pub struct Xorshift64 {
    state: u64,
}

impl Xorshift64 {
    /// The state is never zero, the one fixed point of a xorshift step.
    #[verifier::type_invariant]
    spec fn nonzero(self) -> bool {
        self.state != 0
    }

    pub closed spec fn spec_state(self) -> u64 {
        self.state
    }

    /// A generator seeded with `seed`; a zero seed is replaced.
    pub fn new(seed: u64) -> (g: Self)
        ensures
            g.spec_state() == (if seed == 0 { DEFAULT_SEED } else { seed }),
    {
        Xorshift64 { state: if seed == 0 { DEFAULT_SEED } else { seed } }
    }

    /// Advances the state by one xorshift step and returns it.
    pub fn next_u64(&mut self) -> (x: u64)
        ensures
            x == xorshift(old(self).spec_state()),
            final(self).spec_state() == x,
    {
        proof {
            use_type_invariant(&*self);
            law_xorshift_nonzero(self.state);
        }
        let mut x = self.state;
        x ^= x << 13u64;
        x ^= x >> 7u64;
        x ^= x << 17u64;
        self.state = x;
        x
    }
}

/// A xorshift step maps every non-zero state to a non-zero state, so the
/// generator never falls into the all-zero sequence.
pub proof fn law_xorshift_nonzero(x: u64)
    requires
        x != 0,
    ensures
        xorshift(x) != 0,
{
    let a = x ^ ((x << 13u64) as u64);
    let b = a ^ (a >> 7u64);
    assert(x != 0 ==> x ^ ((x << 13u64) as u64) != 0) by (bit_vector);
    assert(a != 0 ==> a ^ (a >> 7u64) != 0) by (bit_vector);
    assert(b != 0 ==> b ^ ((b << 17u64) as u64) != 0) by (bit_vector);
}

} // verus!
