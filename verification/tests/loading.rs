use triad_counter::plugin::LoadError;
use triad_counter::{TriadCounterPlugin, TriadCounts};

/// What a real number weighs: only its sign counts.
fn weight(value: f64) -> i64 {
    if value > 0.0 {
        1
    } else if value < 0.0 {
        -1
    } else {
        0
    }
}

/// Reads a table of comma-separated values: the fields of the header, and
/// the fields of each record as weights. A field that is no number is no
/// edge.
fn read_table(text: &str) -> (Vec<String>, Vec<Vec<i64>>) {
    let mut reader = csv::ReaderBuilder::new()
        .has_headers(true)
        .flexible(true)
        .from_reader(text.as_bytes());
    let header: Vec<String> = reader.headers().unwrap().iter().map(|s| s.to_string()).collect();
    let mut records = Vec::new();
    for record in reader.records() {
        let record = record.unwrap();
        records.push(record.iter().map(|f| weight(f.trim().parse().unwrap_or(0.0))).collect());
    }
    (header, records)
}

/// A header line: the corner field and the labels.
fn header(labels: &[&str]) -> Vec<String> {
    let mut fields = vec![String::new()];
    fields.extend(labels.iter().map(|s| s.to_string()));
    fields
}

/// Records with the given weights, each behind the field of its label.
fn records(rows: &[&[i64]]) -> Vec<Vec<i64>> {
    rows.iter()
        .map(|row| {
            let mut fields = vec![0];
            fields.extend_from_slice(row);
            fields
        })
        .collect()
}

#[test]
fn test_csv_parsing() {
    let csv = "\"\",A,B,C\nA,0,1,-1\nB,1,0,1\nC,-1,1,0";
    let (header, records) = read_table(csv);

    let mut plugin = TriadCounterPlugin::new();
    plugin.input(header, records).unwrap();

    assert_eq!(plugin.node_count(), 3);
    assert_eq!(plugin.labels(), &["A", "B", "C"]);
}

#[test]
fn loaded_table_is_counted() {
    let (header, records) = read_table("\"\",A,B,C\nA,0,1,-1\nB,1,0,1\nC,-1,1,0");
    let mut plugin = TriadCounterPlugin::new();
    assert_eq!(plugin.input(header, records), Ok(()));
    plugin.run();
    assert_eq!(
        *plugin.counts(),
        TriadCounts { three_positive: 0, two_positive: 1, one_positive: 0, zero_positive: 0 }
    );
}

#[test]
fn real_weights_and_odd_cells_load_by_their_sign() {
    let text = "id,x,y,z\nx,0, 0.25 ,-1e-3\ny,n/a,0,3.5\n7,,,0\n";
    let (header, records) = read_table(text);
    assert_eq!(records, vec![vec![0, 0, 1, -1], vec![0, 0, 0, 1], vec![1, 0, 0, 0]]);
    let mut plugin = TriadCounterPlugin::new();
    plugin.input(header, records).unwrap();
    plugin.run();
    assert_eq!(plugin.labels(), &["x", "y", "z"]);
    assert_eq!(plugin.counts().two_positive, 1);
    assert_eq!(plugin.counts().total(), 1);
}

#[test]
fn input_passes_over_the_first_column() {
    // The first field of a record is the label of its row, whatever it
    // weighs; the first field of the header is no label.
    let mut plugin = TriadCounterPlugin::new();
    let rows = vec![vec![-9, 0, 1, 1], vec![-9, 1, 0, 1], vec![-9, 1, 1, 0]];
    let fields = vec!["corner", "a", "b", "c"].into_iter().map(String::from).collect();
    assert_eq!(plugin.input(fields, rows), Ok(()));
    assert_eq!(plugin.labels(), &["a", "b", "c"]);
    plugin.run();
    assert_eq!(
        *plugin.counts(),
        TriadCounts { three_positive: 1, two_positive: 0, one_positive: 0, zero_positive: 0 }
    );
}

#[test]
fn input_clears_the_diagonal() {
    let mut plugin = TriadCounterPlugin::new();
    let rows = records(&[&[5, 1, 1], &[1, 5, 1], &[1, 1, 5]]);
    plugin.input(header(&["a", "b", "c"]), rows).unwrap();
    let same = TriadCounterPlugin::from_matrix(vec![vec![0, 1, 1], vec![1, 0, 1], vec![1, 1, 0]]);
    assert_eq!(plugin.count_triads_sequential(), same.count_triads_sequential());
    assert_eq!(plugin.count_triads_sequential().three_positive, 1);
}

#[test]
fn input_drops_cells_beyond_the_labels() {
    let mut plugin = TriadCounterPlugin::new();
    let rows = records(&[&[0, 1, 1, -1, -1], &[1, 0, 1, -1], &[1, 1, 0, -1, -1, -1]]);
    assert_eq!(plugin.input(header(&["a", "b", "c"]), rows), Ok(()));
    assert_eq!(plugin.node_count(), 3);
    plugin.run();
    assert_eq!(
        *plugin.counts(),
        TriadCounts { three_positive: 1, two_positive: 0, one_positive: 0, zero_positive: 0 }
    );
}

#[test]
fn input_takes_missing_rows_and_cells_as_no_edge() {
    let mut plugin = TriadCounterPlugin::new();
    let rows = records(&[&[0, 1, 1, 1], &[1, 0, 1]]);
    assert_eq!(plugin.input(header(&["a", "b", "c", "d"]), rows), Ok(()));
    assert_eq!(plugin.node_count(), 4);
    plugin.run();
    // Of the four triples only (a, b, c) has its three edges.
    assert_eq!(plugin.counts().three_positive, 1);
    assert_eq!(plugin.counts().total(), 1);
}

#[test]
fn input_fails_on_a_row_beyond_the_labels() {
    let mut plugin = TriadCounterPlugin::new();
    let rows = records(&[&[0, 1, 1], &[1, 0, 1], &[1, 1, 0]]);
    plugin.input(header(&["p", "q", "r"]), rows).unwrap();
    plugin.run();
    let rows = records(&[&[0, 1], &[1, 0], &[1]]);
    assert_eq!(plugin.input(header(&["a", "b"]), rows), Err(LoadError::RowBeyondLabels));
    // The counter stays as it was.
    assert_eq!(plugin.node_count(), 3);
    assert_eq!(plugin.labels(), &["p", "q", "r"]);
    assert_eq!(plugin.counts().three_positive, 1);
}

#[test]
fn input_accepts_rows_without_weights_beyond_the_labels() {
    let mut plugin = TriadCounterPlugin::new();
    // The third record holds its label only, the fourth nothing at all.
    let rows = vec![vec![0, 0, 1], vec![0, 1, 0], vec![0], vec![]];
    assert_eq!(plugin.input(header(&["a", "b"]), rows), Ok(()));
    assert_eq!(plugin.node_count(), 2);
}

#[test]
fn input_without_labels_gives_the_empty_network() {
    for fields in [Vec::new(), vec![String::from("corner")]] {
        let mut plugin = TriadCounterPlugin::from_matrix(vec![vec![0, 1], vec![1, 0]]);
        assert_eq!(plugin.input(fields, vec![vec![1, 2, 3], vec![4]]), Ok(()));
        assert_eq!(plugin.node_count(), 0);
        assert!(plugin.labels().is_empty());
        plugin.run();
        assert_eq!(*plugin.counts(), TriadCounts::default());
    }
}

#[test]
fn input_fails_on_more_nodes_than_the_machine_counts() {
    let many = 4_801_281;
    assert!(!TriadCounterPlugin::supports(many));
    let mut plugin = TriadCounterPlugin::new();
    let result = plugin.input(vec![String::new(); many + 1], Vec::new());
    assert_eq!(result, Err(LoadError::TooManyNodes));
    assert_eq!(plugin.node_count(), 0);
    // The size is looked at first.
    let result = plugin.input(vec![String::new(); many + 1], vec![vec![0, 1]; many + 1]);
    assert_eq!(result, Err(LoadError::TooManyNodes));
}

#[test]
fn a_load_discards_the_counts_of_an_earlier_run() {
    let mut plugin = TriadCounterPlugin::new();
    let rows = records(&[&[0, 1, 1], &[1, 0, 1], &[1, 1, 0]]);
    plugin.input(header(&["a", "b", "c"]), rows.clone()).unwrap();
    plugin.run();
    assert_eq!(plugin.counts().total(), 1);
    plugin.input(header(&["x", "y", "z"]), rows).unwrap();
    assert_eq!(*plugin.counts(), TriadCounts::default());
    assert_eq!(plugin.labels(), &["x", "y", "z"]);
}

#[test]
fn a_second_load_replaces_the_network() {
    let mut plugin = TriadCounterPlugin::new();
    let rows = records(&[&[0, 1, 1], &[1, 0, 1], &[1, 1, 0]]);
    plugin.input(header(&["a", "b", "c"]), rows).unwrap();
    plugin.run();
    let rows = records(&[&[0, -1, -1, -1], &[-1, 0, -1, -1], &[-1, -1, 0, -1], &[-1, -1, -1, 0]]);
    plugin.input(header(&["k", "l", "m", "n"]), rows).unwrap();
    plugin.run();
    assert_eq!(plugin.node_count(), 4);
    assert_eq!(
        *plugin.counts(),
        TriadCounts { three_positive: 0, two_positive: 0, one_positive: 0, zero_positive: 4 }
    );
}

#[test]
fn supports_ends_where_the_triples_outgrow_the_counters() {
    assert!(TriadCounterPlugin::supports(0));
    assert!(TriadCounterPlugin::supports(2));
    assert!(TriadCounterPlugin::supports(3));
    assert!(TriadCounterPlugin::supports(500));
    if usize::BITS == 64 {
        // C(4801280, 3) = 18446738006366306560 fits 64 bits, the next does not.
        assert!(TriadCounterPlugin::supports(4_801_280));
        assert!(!TriadCounterPlugin::supports(4_801_281));
    }
    assert!(!TriadCounterPlugin::supports(usize::MAX));
}
