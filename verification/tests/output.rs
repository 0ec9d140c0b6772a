use port_scan::output::{render_line, render_report, sort_ports};

#[test]
fn sorts_ascending() {
    assert_eq!(sort_ports(&vec![8080, 22, 443, 80]), vec![22, 80, 443, 8080]);
}

#[test]
fn sort_of_distinct_ports_is_strictly_ascending() {
    let out = sort_ports(&vec![9, 1, 65535, 5000, 80]);
    for w in out.windows(2) {
        assert!(w[0] < w[1]);
    }
    assert_eq!(out, vec![1, 9, 80, 5000, 65535]);
}

#[test]
fn sort_keeps_every_report() {
    assert_eq!(sort_ports(&vec![5, 5, 3]), vec![3, 5, 5]);
    assert_eq!(sort_ports(&vec![]), vec![]);
    assert_eq!(sort_ports(&vec![7]), vec![7]);
}

#[test]
fn line_names_the_port() {
    assert_eq!(render_line(5000), "5000 is open");
    assert_eq!(render_line(1), "1 is open");
    assert_eq!(render_line(65535), "65535 is open");
}

#[test]
fn report_of_detected_port() {
    let lines = render_report(&vec![5000]);
    assert_eq!(lines, vec!["5000 is open".to_string()]);
}

#[test]
fn report_is_silent_on_undetected_ports() {
    let lines = render_report(&vec![80, 443]);
    assert_eq!(lines.len(), 2);
    assert!(!lines.contains(&"5000 is open".to_string()));
    assert_eq!(render_report(&vec![]).len(), 0);
}

#[test]
fn report_of_a_whole_scan_is_ordered() {
    let reported = vec![443u16, 22, 8080, 80];
    let lines = render_report(&sort_ports(&reported));
    assert_eq!(
        lines,
        vec![
            "22 is open".to_string(),
            "80 is open".to_string(),
            "443 is open".to_string(),
            "8080 is open".to_string(),
        ]
    );
}
