//! The triad counter: a loaded network, its labels and its latest counts.

use rayon::iter::{IntoParallelIterator, ParallelIterator};
use vstd::arithmetic::div_mod::lemma_fundamental_div_mod_converse;
use vstd::prelude::*;
use crate::counts::{Census, TriadCounts};
use crate::network::{
    lemma_rows_step, lemma_sweep_edges, lemma_sweep_skip, lemma_sweep_step, lemma_tally_bound,
    lemma_tally_empty, sign_of, Network,
};
use crate::report::{decimal, render, report_text, to_decimal};
use crate::triples::{choose3, row, rows_below, swept, triples};

verus! {

/// What a `TriadCounterPlugin` holds, as mathematics.
pub struct PluginView {
    /// The loaded network.
    pub network: Network,
    /// The name of each node, in the order of the matrix.
    pub labels: Seq<Seq<char>>,
    /// The counts of the latest run, empty since the latest load.
    pub counts: Census,
}

/// Whether this machine can hold and count a network of `n` nodes: the
/// matrix has `n * n` cells, which must fit a `usize`, and there may be as
/// many triads as triples of nodes, which must fit a `u64`.
pub open spec fn supported(n: nat) -> bool {
    n * n <= usize::MAX && choose3(n) <= u64::MAX
}

impl PluginView {
    /// What holds of every counter: the matrix is square and has no
    /// self-loops, each node has a label, the size is supported, and the
    /// counts are no more than there are triples.
    pub open spec fn valid(self) -> bool {
        &&& self.network.square()
        &&& self.network.no_loops()
        &&& self.labels.len() == self.network.n()
        &&& supported(self.network.n())
        &&& self.counts.total() <= choose3(self.network.n())
    }
}

/// The weight that a table of rows gives to the edge from `i` to `j`, where
/// the first `lead` fields of each row are no weights: the field `lead + j`
/// of row `i` where there is one, and none on the diagonal.
pub open spec fn table_weight(rows: Seq<Vec<i64>>, lead: nat, i: int, j: int) -> int {
    if i != j && 0 <= i < rows.len() && 0 <= j && lead + j < rows[i]@.len() {
        rows[i]@[lead + j] as int
    } else {
        0
    }
}

/// The square matrix of side `n` that a table of rows gives. Cells that the
/// table lacks are no edge; cells beyond the square are left out.
pub open spec fn table_weights(n: nat, rows: Seq<Vec<i64>>, lead: nat) -> Seq<Seq<int>> {
    Seq::new(n, |i: int| Seq::new(n, |j: int| table_weight(rows, lead, i, j)))
}

/// Whether the table has a row beyond the `n`-th that holds a weight for
/// one of the `n` columns.
pub open spec fn has_stray_row(n: nat, rows: Seq<Vec<i64>>, lead: nat) -> bool {
    n > 0 && exists|r: int| n <= r < rows.len() && (#[trigger] rows[r])@.len() > lead
}

/// The text of each label.
pub open spec fn texts(labels: Seq<String>) -> Seq<Seq<char>> {
    labels.map_values(|s: String| s@)
}

/// The labels that a header line names: its fields but the first, which
/// heads the column of row labels.
pub open spec fn header_labels(header: Seq<String>) -> Seq<Seq<char>> {
    if header.len() == 0 {
        Seq::empty()
    } else {
        texts(header.remove(0))
    }
}

/// The label that a node gets where none is given: `Node` and its index.
pub open spec fn node_label(i: nat) -> Seq<char> {
    "Node"@ + decimal(i)
}

/// Why a table could not be loaded.
#[derive(Debug, Clone, Copy, PartialEq, Eq, Structural)]
pub enum LoadError {
    /// There are more nodes than this machine can hold or count.
    TooManyNodes,
    /// A row of data lies beyond the last label.
    RowBeyondLabels,
}

/// Networks of at least this many nodes are counted in parallel.
pub const PARALLEL_THRESHOLD: usize = 500;

/// Counts the triads of a signed network.
pub struct TriadCounterPlugin {
    /// Adjacency matrix, flattened row by row.
    adj: Vec<i64>,
    /// Sign of each weight: 1 = positive, -1 = negative, 0 = no edge.
    signs: Vec<i8>,
    /// Number of nodes.
    n: usize,
    /// Node labels.
    labels: Vec<String>,
    /// Computed triad counts.
    counts: TriadCounts,
}

/// The sign of a weight.
fn to_sign(v: i64) -> (s: i8)
    ensures
        s == sign_of(v as int),
{
    if v > 0 {
        1
    } else if v < 0 {
        -1
    } else {
        0
    }
}

/// How many of the three signs are positive.
fn positive_edges(ij: i8, ik: i8, jk: i8) -> (p: u8)
    ensures
        p == (if ij > 0 { 1nat } else { 0 }) + (if ik > 0 { 1nat } else { 0 }) + (if jk > 0 {
            1nat
        } else {
            0
        }),
{
    let a: u8 = if ij > 0 { 1 } else { 0 };
    let b: u8 = if ik > 0 { 1 } else { 0 };
    let c: u8 = if jk > 0 { 1 } else { 0 };
    a + b + c
}

/// Cell `(i, j)` of a square matrix of side `n` lies at `i * n + j` of its
/// rows laid end to end.
proof fn lemma_flat_index(n: int, i: int, j: int)
    requires
        0 <= i < n,
        0 <= j < n,
    ensures
        0 <= i * n <= i * n + j < n * n,
{
    assert(0 <= i * n && i * n + n <= n * n) by (nonlinear_arith)
        requires
            0 <= i < n,
    ;
}

impl View for TriadCounterPlugin {
    type V = PluginView;

    closed spec fn view(&self) -> PluginView {
        PluginView {
            network: Network {
                weights: Seq::new(
                    self.n as nat,
                    |i: int| Seq::new(self.n as nat, |j: int| self.adj@[i * self.n + j] as int),
                ),
            },
            labels: self.labels@.map_values(|s: String| s@),
            counts: self.counts@,
        }
    }
}

impl TriadCounterPlugin {
    /// Whether the flat matrix has `n * n` cells and the signs are those of
    /// its weights.
    pub closed spec fn consistent(&self) -> bool {
        &&& self.adj@.len() == self.n * self.n
        &&& self.signs@.len() == self.n * self.n
        &&& forall|c: int|
            0 <= c < self.signs@.len() ==> #[trigger] self.signs@[c] == sign_of(self.adj@[c] as int)
    }

    /// The invariant of the counter.
    pub open spec fn wf(&self) -> bool {
        self.consistent() && self@.valid()
    }

    proof fn lemma_sign_at(&self, i: int, j: int)
        requires
            self.wf(),
            0 <= i < self.n,
            0 <= j < self.n,
        ensures
            0 <= i * self.n <= i * self.n + j < self.signs@.len() <= usize::MAX,
            self.signs@[i * self.n + j] == self@.network.sign(i, j),
            self@.network.n() == self.n,
    {
        lemma_flat_index(self.n as int, i, j);
        assert(self.signs.len() == self.signs@.len());
    }

    /// Create a new empty plugin.
    pub fn new() -> (plugin: TriadCounterPlugin)
        ensures
            plugin.wf(),
            plugin@ == (PluginView {
                network: Network { weights: Seq::empty() },
                labels: Seq::empty(),
                counts: Census::empty(),
            }),
    {
        let plugin = TriadCounterPlugin {
            adj: Vec::new(),
            signs: Vec::new(),
            n: 0,
            labels: Vec::new(),
            counts: TriadCounts::default(),
        };
        proof {
            assert(plugin@.network.weights =~= Seq::empty());
            assert(plugin@.labels =~= Seq::empty());
            assert(choose3(0) == 0) by (nonlinear_arith);
        }
        plugin
    }

    /// Whether this machine can hold and count a network of `n` nodes.
    pub fn supports(n: usize) -> (ok: bool)
        ensures
            ok == supported(n as nat),
    {
        if n < 3 {
            proof {
                assert(choose3(n as nat) == 0) by (nonlinear_arith)
                    requires
                        n < 3,
                ;
                assert(n * n <= 4) by (nonlinear_arith)
                    requires
                        n < 3,
                ;
            }
            return true;
        }
        match n.checked_mul(n) {
            None => false,
            Some(_) => {
                let m = n as u128;
                proof {
                    assert(m < 0x1_0000_0000) by (nonlinear_arith)
                        requires
                            m * m <= 0xffff_ffff_ffff_ffff,
                    ;
                    assert(0 <= m * (m - 1) <= 0x1_0000_0000_0000_0000 && 0 <= m * (m - 1) * (m
                        - 2) <= 0x1_0000_0000_0000_0000_0000_0000) by (nonlinear_arith)
                        requires
                            3 <= m < 0x1_0000_0000,
                    ;
                }
                m * (m - 1) * (m - 2) / 6 <= 0xffff_ffff_ffff_ffff
            },
        }
    }

    /// Pre-compute the sign of each weight for fast access.
    fn compute_signs(adj: &Vec<i64>) -> (signs: Vec<i8>)
        ensures
            signs@.len() == adj@.len(),
            forall|c: int| 0 <= c < signs@.len() ==> #[trigger] signs@[c] == sign_of(adj@[c] as int),
    {
        let mut signs: Vec<i8> = Vec::new();
        for c in 0..adj.len()
            invariant
                signs@.len() == c,
                forall|d: int| 0 <= d < c ==> #[trigger] signs@[d] == sign_of(adj@[d] as int),
        {
            signs.push(to_sign(adj[c]));
        }
        signs
    }

    /// Lays the weights of `rows` that fall into the square of side `n` end
    /// to end, row by row, with no edge on the diagonal and wherever `rows`
    /// has no weight. The first `lead` fields of each row are passed over.
    fn flatten(n: usize, rows: &Vec<Vec<i64>>, lead: usize) -> (adj: Vec<i64>)
        requires
            n * n <= usize::MAX,
            lead <= 1,
        ensures
            adj@.len() == n * n,
            forall|i: int, j: int|
                0 <= i < n && 0 <= j < n ==> adj@[#[trigger] (i * n + j)] == table_weight(
                    rows@,
                    lead as nat,
                    i,
                    j,
                ),
    {
        let mut adj: Vec<i64> = Vec::new();
        for i in 0..n
            invariant
                n * n <= usize::MAX,
                lead <= 1,
                adj@.len() == i * n,
                forall|c: int|
                    0 <= c < adj@.len() ==> #[trigger] adj@[c] == table_weight(
                        rows@,
                        lead as nat,
                        c / (n as int),
                        c % (n as int),
                    ),
        {
            for j in 0..n
                invariant
                    n * n <= usize::MAX,
                    lead <= 1,
                    i < n,
                    adj@.len() == i * n + j,
                    forall|c: int|
                        0 <= c < adj@.len() ==> #[trigger] adj@[c] == table_weight(
                            rows@,
                            lead as nat,
                            c / (n as int),
                            c % (n as int),
                        ),
            {
                let value = if i != j && i < rows.len() && lead + j < rows[i].len() {
                    rows[i][lead + j]
                } else {
                    0
                };
                proof {
                    lemma_fundamental_div_mod_converse(i * n + j, n as int, i as int, j as int);
                }
                adj.push(value);
            }
            assert(i * n + n == (i + 1) * n) by (nonlinear_arith);
        }
        proof {
            assert forall|i: int, j: int| 0 <= i < n && 0 <= j < n implies adj@[#[trigger] (i * n
                + j)] == table_weight(rows@, lead as nat, i, j) by {
                lemma_flat_index(n as int, i, j);
                lemma_fundamental_div_mod_converse(i * n + j, n as int, i, j);
            }
        }
        adj
    }

    /// Whether a row beyond the `n`-th holds a weight for one of the `n`
    /// columns.
    fn find_stray_row(n: usize, rows: &Vec<Vec<i64>>, lead: usize) -> (found: bool)
        ensures
            found == has_stray_row(n as nat, rows@, lead as nat),
    {
        if n == 0 {
            return false;
        }
        let mut r = n;
        while r < rows.len()
            invariant
                n <= r,
                n > 0,
                forall|q: int|
                    n <= q < r && q < rows@.len() ==> (#[trigger] rows@[q])@.len() <= lead,
            decreases rows.len() - r,
        {
            if rows[r].len() > lead {
                return true;
            }
            r += 1;
        }
        false
    }

    /// Load a network from the lines of an adjacency table, as a file of
    /// comma-separated values holds it: `header` has the fields of the first
    /// line, `records` the fields of each further line as weights.
    ///
    /// The first column holds the labels of the rows and is passed over, in
    /// the header and in each record. There is one node for each further
    /// field of the header, labelled by it. Weights beyond the square that
    /// the labels span are dropped, weights that the table lacks are no edge,
    /// and the diagonal is cleared. A record beyond the last label that
    /// holds a weight has no place in the matrix: with such a record, or
    /// with more nodes than the machine supports, the load fails and the
    /// counter stays as it was. A load discards the counts of an earlier
    /// run.
    pub fn input(&mut self, header: Vec<String>, records: Vec<Vec<i64>>) -> (result: Result<
        (),
        LoadError,
    >)
        ensures
            !supported(header_labels(header@).len()) ==> result == Err::<(), LoadError>(
                LoadError::TooManyNodes,
            ),
            supported(header_labels(header@).len()) && has_stray_row(
                header_labels(header@).len(),
                records@,
                1,
            ) ==> result == Err::<(), LoadError>(LoadError::RowBeyondLabels),
            supported(header_labels(header@).len()) && !has_stray_row(
                header_labels(header@).len(),
                records@,
                1,
            ) ==> result is Ok,
            result is Err ==> *final(self) == *old(self),
            result is Ok ==> final(self).wf() && final(self)@ == (PluginView {
                network: Network {
                    weights: table_weights(header_labels(header@).len(), records@, 1),
                },
                labels: header_labels(header@),
                counts: Census::empty(),
            }),
    {
        let mut labels = header;
        if labels.len() > 0 {
            labels.remove(0);
        }
        let n = labels.len();
        if !Self::supports(n) {
            return Err(LoadError::TooManyNodes);
        }
        if Self::find_stray_row(n, &records, 1) {
            return Err(LoadError::RowBeyondLabels);
        }
        let adj = Self::flatten(n, &records, 1);
        let signs = Self::compute_signs(&adj);
        self.labels = labels;
        self.n = n;
        self.adj = adj;
        self.signs = signs;
        self.counts = TriadCounts::default();
        proof {
            self.lemma_loaded(records@, 1);
            assert(self@.labels =~= header_labels(header@));
        }
        Ok(())
    }

    /// A counter whose flat matrix holds the cells of a table is well formed
    /// once its counts are empty, and its network is that of the table.
    proof fn lemma_loaded(&self, rows: Seq<Vec<i64>>, lead: nat)
        requires
            supported(self.n as nat),
            self.adj@.len() == self.n * self.n,
            forall|i: int, j: int|
                0 <= i < self.n && 0 <= j < self.n ==> self.adj@[#[trigger] (i * self.n + j)]
                    == table_weight(rows, lead, i, j),
            self.signs@.len() == self.adj@.len(),
            forall|c: int|
                0 <= c < self.signs@.len() ==> #[trigger] self.signs@[c] == sign_of(
                    self.adj@[c] as int,
                ),
            self.labels@.len() == self.n,
            self.counts@ == Census::empty(),
        ensures
            self.wf(),
            self@.network.weights == table_weights(self.n as nat, rows, lead),
    {
        let n = self.n as nat;
        let w = self@.network.weights;
        let t = table_weights(n, rows, lead);
        assert forall|i: int| 0 <= i < n implies #[trigger] w[i] == t[i] by {
            assert forall|j: int| 0 <= j < n implies w[i][j] == t[i][j] by {
                assert(self.adj@[i * self.n + j] == table_weight(rows, lead, i, j));
            }
            assert(w[i] =~= t[i]);
        }
        assert(w =~= t);
    }

    /// Count triads - automatically chooses best strategy. The counts are
    /// kept for `counts` and `output`.
    pub fn run(&mut self)
        requires
            old(self).wf(),
        ensures
            final(self).wf(),
            final(self)@ == (PluginView { counts: old(self)@.network.census(), ..old(self)@ }),
    {
        let counts = self.count_triads_optimized();
        proof {
            lemma_tally_bound(self@.network, triples(self@.network.n()));
        }
        self.counts = counts;
    }

    /// Optimized triad counting: in parallel for networks of at least
    /// `PARALLEL_THRESHOLD` nodes, where the overhead pays off, in sequence
    /// for smaller ones. Both give the same counts.
    pub fn count_triads_optimized(&self) -> (counts: TriadCounts)
        requires
            self.wf(),
        ensures
            counts@ == self@.network.census(),
    {
        if self.n >= PARALLEL_THRESHOLD {
            self.count_triads_parallel_chunked()
        } else {
            self.count_triads_sequential()
        }
    }

    /// Sequential triad counting over the signs: one sweep over all triples
    /// `i < j < k`, which skips every `k` where `i` and `j` are not linked.
    pub fn count_triads_sequential(&self) -> (counts: TriadCounts)
        requires
            self.wf(),
        ensures
            counts@ == self@.network.census(),
    {
        let mut counts = TriadCounts::default();
        let n = self.n;
        let ghost net = self@.network;
        proof {
            lemma_tally_empty(net);
            lemma_sweep_edges(n as nat, 0, 0, 0);
            assert(net.n() == n);
        }
        for i in 0..n
            invariant
                self.wf(),
                n == self.n,
                net == self@.network,
                net.n() == n,
                counts@ == net.tally(swept(n as nat, 0, i as int, 0, 0)),
        {
            proof {
                self.lemma_sign_at(i as int, i as int);
                lemma_sweep_edges(n as nat, 0, i as int, i + 1);
            }
            let i_offset = i * n;
            for j in (i + 1)..n
                invariant
                    self.wf(),
                    n == self.n,
                    net == self@.network,
                    net.n() == n,
                    i < n,
                    i_offset == i * n,
                    counts@ == net.tally(swept(n as nat, 0, i as int, j as int, 0)),
            {
                proof {
                    self.lemma_sign_at(i as int, j as int);
                    self.lemma_sign_at(j as int, j as int);
                    lemma_sweep_edges(n as nat, 0, i as int, j as int);
                }
                let ij = self.signs[i_offset + j];
                // Skip if no edge between i and j
                if ij == 0 {
                    proof {
                        lemma_sweep_skip(net, 0, i as int, j as int);
                    }
                } else {
                    let j_offset = j * n;
                    for k in (j + 1)..n
                        invariant
                            self.wf(),
                            n == self.n,
                            net == self@.network,
                            net.n() == n,
                            i < j < n,
                            i_offset == i * n,
                            j_offset == j * n,
                            ij == net.sign(i as int, j as int),
                            ij != 0,
                            counts@ == net.tally(swept(n as nat, 0, i as int, j as int, k as int)),
                    {
                        proof {
                            self.lemma_sign_at(i as int, k as int);
                            self.lemma_sign_at(j as int, k as int);
                            lemma_sweep_step(net, 0, i as int, j as int, k as int);
                        }
                        let ik = self.signs[i_offset + k];
                        let jk = self.signs[j_offset + k];
                        // Skip if missing edges
                        if ik != 0 && jk != 0 {
                            let pos_count = positive_edges(ij, ik, jk);
                            counts.record(pos_count);
                        }
                    }
                    proof {
                        lemma_sweep_edges(n as nat, 0, i as int, n as int);
                        assert(swept(n as nat, 0, i as int, j as int, n as int) =~= swept(
                            n as nat,
                            0,
                            i as int,
                            j + 1,
                            0,
                        ));
                    }
                }
            }
            proof {
                lemma_sweep_edges(n as nat, 0, i as int, n as int);
            }
        }
        proof {
            lemma_sweep_edges(n as nat, 0, n as int, 0);
        }
        counts
    }

    /// The triads whose lowest node is `i`: the work of one row of the
    /// parallel count, with the pruning of the sequential sweep.
    fn count_row(&self, i: usize) -> (counts: TriadCounts)
        requires
            self.wf(),
            i < self.n,
        ensures
            counts@ == self@.network.tally(row(self.n as nat, i as int)),
    {
        let mut counts = TriadCounts::default();
        let n = self.n;
        let ghost net = self@.network;
        proof {
            lemma_tally_empty(net);
            self.lemma_sign_at(i as int, i as int);
            lemma_sweep_edges(n as nat, i as int, i as int, i + 1);
        }
        let i_offset = i * n;
        for j in (i + 1)..n
            invariant
                self.wf(),
                n == self.n,
                net == self@.network,
                net.n() == n,
                i < n,
                i_offset == i * n,
                counts@ == net.tally(swept(n as nat, i as int, i as int, j as int, 0)),
        {
            proof {
                self.lemma_sign_at(i as int, j as int);
                self.lemma_sign_at(j as int, j as int);
                lemma_sweep_edges(n as nat, i as int, i as int, j as int);
            }
            let ij = self.signs[i_offset + j];
            if ij == 0 {
                proof {
                    lemma_sweep_skip(net, i as int, i as int, j as int);
                }
            } else {
                let j_offset = j * n;
                for k in (j + 1)..n
                    invariant
                        self.wf(),
                        n == self.n,
                        net == self@.network,
                        net.n() == n,
                        i < j < n,
                        i_offset == i * n,
                        j_offset == j * n,
                        ij == net.sign(i as int, j as int),
                        ij != 0,
                        counts@ == net.tally(
                            swept(n as nat, i as int, i as int, j as int, k as int),
                        ),
                {
                    proof {
                        self.lemma_sign_at(i as int, k as int);
                        self.lemma_sign_at(j as int, k as int);
                        lemma_sweep_step(net, i as int, i as int, j as int, k as int);
                    }
                    let ik = self.signs[i_offset + k];
                    let jk = self.signs[j_offset + k];
                    if ik != 0 && jk != 0 {
                        let pos_count = positive_edges(ij, ik, jk);
                        counts.record(pos_count);
                    }
                }
                proof {
                    assert(swept(n as nat, i as int, i as int, j as int, n as int) =~= swept(
                        n as nat,
                        i as int,
                        i as int,
                        j + 1,
                        0,
                    ));
                }
            }
        }
        proof {
            lemma_sweep_edges(n as nat, i as int, i as int, n as int);
        }
        counts
    }

    /// Hands the rows `0..n` to `rayon`: `into_par_iter` on the range, `map`
    /// with `count_row`, and `collect` into a vector. `map` applies the
    /// function to each item, and collecting a range into a vector keeps the
    /// order of the range, so entry `i` is what `count_row` returns for `i`.
    #[verifier::external_body]
    fn par_count_rows(&self) -> (parts: Vec<TriadCounts>)
        requires
            self.wf(),
        ensures
            parts@.len() == self.n,
            forall|i: int|
                0 <= i < self.n ==> (#[trigger] parts@[i])@ == self@.network.tally(
                    row(self.n as nat, i),
                ),
    {
        (0..self.n).into_par_iter().map(|i| self.count_row(i)).collect()
    }

    /// Parallel triad counting: each row is counted on its own, by whichever
    /// worker takes it, and the partial counts are merged.
    pub fn count_triads_parallel_chunked(&self) -> (counts: TriadCounts)
        requires
            self.wf(),
        ensures
            counts@ == self@.network.census(),
    {
        let n = self.n;
        let ghost net = self@.network;
        let parts = self.par_count_rows();
        let mut counts = TriadCounts::default();
        proof {
            lemma_tally_empty(net);
            lemma_sweep_edges(n as nat, 0, 0, 0);
            assert(net.n() == n);
        }
        for i in 0..n
            invariant
                net.n() == n,
                parts@.len() == n,
                choose3(n as nat) <= u64::MAX,
                forall|r: int|
                    0 <= r < n ==> (#[trigger] parts@[r])@ == net.tally(row(n as nat, r)),
                counts@ == net.tally(rows_below(n as nat, i as int)),
        {
            proof {
                lemma_rows_step(net, i as int);
            }
            counts.merge(&parts[i]);
        }
        proof {
            lemma_sweep_edges(n as nat, 0, n as int, 0);
        }
        counts
    }

    /// The text of the report on the latest counts, as written to the output
    /// file.
    pub fn output(&self) -> (text: String)
        requires
            self.wf(),
        ensures
            text@ == report_text(self@.counts),
    {
        render(&self.counts)
    }

    /// Get the computed triad counts: those of the latest run, or the empty
    /// counts if there was none since the latest load.
    pub fn counts(&self) -> (counts: &TriadCounts)
        ensures
            counts@ == self@.counts,
    {
        &self.counts
    }

    /// Get number of nodes.
    pub fn node_count(&self) -> (n: usize)
        ensures
            n == self@.network.n(),
    {
        self.n
    }

    /// Get node labels.
    pub fn labels(&self) -> (labels: &[String])
        ensures
            texts(labels@) == self@.labels,
    {
        self.labels.as_slice()
    }

    /// Create plugin from adjacency matrix directly: node `i` is labelled
    /// `Node` and `i` in decimal. Entries on the diagonal are ignored, and so
    /// are entries of a row beyond as many as there are rows; a row that is
    /// shorter leaves the missing edges absent.
    pub fn from_matrix(matrix: Vec<Vec<i64>>) -> (plugin: TriadCounterPlugin)
        requires
            supported(matrix@.len()),
        ensures
            plugin.wf(),
            plugin@ == (PluginView {
                network: Network { weights: table_weights(matrix@.len(), matrix@, 0) },
                labels: Seq::new(matrix@.len(), |i: int| node_label(i as nat)),
                counts: Census::empty(),
            }),
    {
        let n = matrix.len();
        let adj = Self::flatten(n, &matrix, 0);
        let signs = Self::compute_signs(&adj);
        let mut labels: Vec<String> = Vec::new();
        for i in 0..n
            invariant
                labels@.len() == i,
                forall|r: int| 0 <= r < i ==> (#[trigger] labels@[r])@ == node_label(r as nat),
        {
            let mut label = String::from_str("Node");
            label.append(to_decimal(i as u64).as_str());
            labels.push(label);
        }
        let plugin = TriadCounterPlugin { adj, signs, n, labels, counts: TriadCounts::default() };
        proof {
            plugin.lemma_loaded(matrix@, 0);
            assert(plugin@.labels =~= Seq::new(matrix@.len(), |i: int| node_label(i as nat)));
        }
        plugin
    }
}

impl Default for TriadCounterPlugin {
    fn default() -> (plugin: TriadCounterPlugin)
        ensures
            plugin.wf(),
            plugin@ == (PluginView {
                network: Network { weights: Seq::empty() },
                labels: Seq::empty(),
                counts: Census::empty(),
            }),
    {
        Self::new()
    }
}

} // verus!
