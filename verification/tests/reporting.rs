use triad_counter::report::{render, to_decimal};
use triad_counter::{count_triads, TriadCounterPlugin, TriadCounts};

#[test]
fn decimal_numerals() {
    assert_eq!(to_decimal(0), "0");
    assert_eq!(to_decimal(7), "7");
    assert_eq!(to_decimal(10), "10");
    assert_eq!(to_decimal(1234567890), "1234567890");
    assert_eq!(to_decimal(20_708_500), "20708500");
    assert_eq!(to_decimal(u64::MAX), "18446744073709551615");
    for n in [9u64, 99, 100, 101, 4_096, 999_999, 1 << 40] {
        assert_eq!(to_decimal(n), n.to_string());
    }
}

#[test]
fn report_of_a_tally() {
    let counts = TriadCounts {
        three_positive: 307,
        two_positive: 567,
        one_positive: 231,
        zero_positive: 35,
    };
    let expected = "*********************************************\n\
                    Stable triads: 538\n\
                    Unstable triads: 602\n\
                    \n\
                    Counts by positive edges:\n\
                    3: 307\n\
                    2: 567\n\
                    1: 231\n\
                    0: 35\n\
                    *********************************************\n";
    assert_eq!(render(&counts), expected);
}

#[test]
fn output_reports_the_latest_counts() {
    let mut plugin = TriadCounterPlugin::from_matrix(vec![
        vec![0, 1, 1, 1],
        vec![1, 0, -1, 1],
        vec![1, -1, 0, 1],
        vec![1, 1, 1, 0],
    ]);
    let rule = "*".repeat(45);
    let before = format!(
        "{rule}\nStable triads: 0\nUnstable triads: 0\n\nCounts by positive edges:\n3: 0\n2: 0\n1: 0\n0: 0\n{rule}\n"
    );
    assert_eq!(plugin.output(), before);
    plugin.run();
    let after = format!(
        "{rule}\nStable triads: 2\nUnstable triads: 2\n\nCounts by positive edges:\n3: 2\n2: 2\n1: 0\n0: 0\n{rule}\n"
    );
    assert_eq!(plugin.output(), after);
}

#[test]
fn possible_triads() {
    assert_eq!(count_triads(0), 0);
    assert_eq!(count_triads(1), 0);
    assert_eq!(count_triads(2), 0);
    assert_eq!(count_triads(3), 1);
    assert_eq!(count_triads(4), 4);
    assert_eq!(count_triads(5), 10);
    assert_eq!(count_triads(20), 1140);
    assert_eq!(count_triads(500), 20_708_500);
}

#[test]
fn no_network_has_more_triads_than_possible() {
    for n in 0..12usize {
        for salt in 0..5usize {
            let mut matrix = vec![vec![0i64; n]; n];
            for i in 0..n {
                for j in 0..n {
                    matrix[i][j] = ((i * 3 + j * 7 + salt) % 3) as i64 - 1;
                }
            }
            let complete = (0..n).all(|i| ((i + 1)..n).all(|j| matrix[i][j] != 0));
            let mut plugin = TriadCounterPlugin::from_matrix(matrix);
            plugin.run();
            let total = plugin.counts().total() as usize;
            assert!(total <= count_triads(n));
            if n >= 3 {
                assert_eq!(total == count_triads(n), complete);
            }
            assert_eq!(plugin.counts().stable() + plugin.counts().unstable(), plugin.counts().total());
        }
    }
}
