use etherhosts::diagnostic::{Diagnostic, Field};
use etherhosts::convert::{
    convert, convert_now, find_columns, Columns, Conversion, ConvertError, ETHERS_BANNER,
    HOSTS_BANNER,
};

fn owned(cells: &[&str]) -> Vec<String> {
    cells.iter().map(|c| c.to_string()).collect()
}

fn note(row: usize, field: Field, reason: &str) -> Diagnostic {
    Diagnostic { row, field, reason: reason.to_string() }
}

fn fresh() -> Conversion {
    Conversion { hosts: String::new(), ethers: String::new(), diagnostics: Vec::new() }
}

#[test]
fn malformed_ip_skips_the_whole_row() {
    let input = "ipaddr,hostname,macaddr\n\
                 10.0.0.1,alpha,aa:bb:cc:dd:ee:01\n\
                 10.0.0.999,beta,aa:bb:cc:dd:ee:02\n\
                 10.0.0.3,gamma,aa:bb:cc:dd:ee:03\n";
    let out = convert(input, "T").unwrap();
    assert_eq!(
        out.hosts,
        "# hosts automatically generated by etherhosts T\n10.0.0.1 alpha\n10.0.0.3 gamma\n"
    );
    assert_eq!(
        out.ethers,
        "# ethers automatically generated by etherhosts T\naa:bb:cc:dd:ee:01 10.0.0.1\naa:bb:cc:dd:ee:03 10.0.0.3\n"
    );
    assert_eq!(out.diagnostics, vec![note(3, Field::IpAddr, "ipaddr failed regex check")]);
    assert!(!out.hosts.contains("beta"));
    assert!(!out.ethers.contains("aa:bb:cc:dd:ee:02"));
}

#[test]
fn blank_hostname_gives_an_ethers_line_only() {
    let input = "ipaddr,hostname,macaddr\n10.0.0.1,,AA-BB-CC-DD-EE-FF\n";
    let out = convert(input, "now").unwrap();
    assert_eq!(out.hosts, "# hosts automatically generated by etherhosts now\n");
    assert_eq!(
        out.ethers,
        "# ethers automatically generated by etherhosts now\naa:bb:cc:dd:ee:ff 10.0.0.1\n"
    );
    assert_eq!(out.diagnostics, Vec::<Diagnostic>::new());
}

#[test]
fn blank_mac_gives_a_hosts_line_only() {
    let input = "ipaddr,hostname,macaddr\n10.0.0.1,alpha,  \n";
    let out = convert(input, "now").unwrap();
    assert_eq!(out.hosts, "# hosts automatically generated by etherhosts now\n10.0.0.1 alpha\n");
    assert_eq!(out.ethers, "# ethers automatically generated by etherhosts now\n");
    assert!(out.diagnostics.is_empty());
}

#[test]
fn bad_hostname_and_bad_mac_are_reported_in_that_order() {
    let input = "ipaddr,hostname,macaddr\n10.0.0.1,host_1,zz\n10.0.0.2,ok,aa:bb:cc:dd:ee:ff\n";
    let out = convert(input, "").unwrap();
    assert_eq!(out.hosts, "# hosts automatically generated by etherhosts \n10.0.0.2 ok\n");
    assert_eq!(
        out.ethers,
        "# ethers automatically generated by etherhosts \naa:bb:cc:dd:ee:ff 10.0.0.2\n"
    );
    assert_eq!(
        out.diagnostics,
        vec![
            note(2, Field::Hostname, "hostname failed regex check"),
            note(2, Field::MacAddr, "macaddr failed regex check"),
        ]
    );
}

#[test]
fn rows_are_numbered_from_the_header() {
    let input = "ipaddr,hostname,macaddr\nx,a,\ny,b,\n10.0.0.3,c,\nz,d,\n";
    let out = convert(input, "T").unwrap();
    let rows: Vec<usize> = out.diagnostics.iter().map(|d| d.row).collect();
    assert_eq!(rows, vec![2, 3, 5]);
    assert!(out.diagnostics.iter().all(|d| d.field == Field::IpAddr));
}

#[test]
fn columns_may_stand_in_any_order_among_others() {
    let input = "site,macaddr,notes,hostname,ipaddr\n\
                 lab,AA-BB-CC-DD-EE-FF,\"spare, unused\",alpha,10.0.0.1\n";
    let out = convert(input, "T").unwrap();
    assert_eq!(out.hosts, "# hosts automatically generated by etherhosts T\n10.0.0.1 alpha\n");
    assert_eq!(
        out.ethers,
        "# ethers automatically generated by etherhosts T\naa:bb:cc:dd:ee:ff 10.0.0.1\n"
    );
}

#[test]
fn missing_header_name_gives_no_output() {
    assert_eq!(convert("ipaddr,hostname\n10.0.0.1,a\n", "T"), Err(ConvertError::MissingHeaders));
    assert_eq!(convert("ip,hostname,macaddr\n", "T"), Err(ConvertError::MissingHeaders));
    assert_eq!(convert("IPADDR,HOSTNAME,MACADDR\n", "T"), Err(ConvertError::MissingHeaders));
    assert_eq!(convert(" ipaddr,hostname,macaddr\n", "T"), Err(ConvertError::MissingHeaders));
}

#[test]
fn text_without_a_line_has_no_header() {
    assert_eq!(convert("", "T"), Err(ConvertError::MissingHeaders));
}

#[test]
fn header_alone_gives_the_two_first_lines() {
    let out = convert("ipaddr,hostname,macaddr", "2021-03-04 05:06:07 +01:00").unwrap();
    assert_eq!(
        out.hosts,
        "# hosts automatically generated by etherhosts 2021-03-04 05:06:07 +01:00\n"
    );
    assert_eq!(
        out.ethers,
        "# ethers automatically generated by etherhosts 2021-03-04 05:06:07 +01:00\n"
    );
    assert!(out.diagnostics.is_empty());
}

#[test]
fn short_row_fails_the_conversion() {
    let input = "hostname,macaddr,ipaddr\nalpha,aa:bb:cc:dd:ee:ff,10.0.0.1\nbeta\n";
    assert_eq!(convert(input, "T"), Err(ConvertError::ShortRow { row: 3 }));
    let input = "ipaddr,hostname,macaddr\n10.0.0.1,alpha\n";
    assert_eq!(convert(input, "T"), Err(ConvertError::ShortRow { row: 2 }));
    let input = "ipaddr,hostname,macaddr\n\n";
    assert_eq!(convert(input, "T").unwrap().diagnostics, vec![note(2, Field::IpAddr, "ipaddr failed regex check")]);
}

#[test]
fn short_row_with_a_bad_ip_is_only_skipped() {
    let input = "ipaddr,hostname,macaddr\nnot-an-ip\n10.0.0.2,beta,\n";
    let out = convert(input, "T").unwrap();
    assert_eq!(out.hosts, "# hosts automatically generated by etherhosts T\n10.0.0.2 beta\n");
    assert_eq!(out.diagnostics, vec![note(2, Field::IpAddr, "ipaddr failed regex check")]);
}

#[test]
fn windows_line_endings_are_read() {
    let input = "ipaddr,hostname,macaddr\r\n10.0.0.1,alpha,\r\n10.0.0.2,beta,\r\n";
    let out = convert(input, "T").unwrap();
    assert_eq!(
        out.hosts,
        "# hosts automatically generated by etherhosts T\n10.0.0.1 alpha\n10.0.0.2 beta\n"
    );
}

#[test]
fn same_input_gives_the_same_lines_whatever_the_stamp() {
    let input = "ipaddr,hostname,macaddr\n10.0.0.1,alpha,aa:bb:cc:dd:ee:01\nbad,x,y\n10.0.0.3,,\n";
    let a = convert(input, "2021-01-01 00:00:00 +00:00").unwrap();
    let b = convert(input, "2030-12-31 23:59:59 -08:00").unwrap();
    let c = convert(input, "2021-01-01 00:00:00 +00:00").unwrap();
    assert_eq!(a, c);
    assert_eq!(a.diagnostics, b.diagnostics);
    let after_first = |s: &str| s.split_once('\n').unwrap().1.to_string();
    assert_eq!(after_first(&a.hosts), after_first(&b.hosts));
    assert_eq!(after_first(&a.ethers), after_first(&b.ethers));
    assert_ne!(a.hosts, b.hosts);
}

#[test]
fn convert_now_stamps_the_first_lines() {
    let out = convert_now("ipaddr,hostname,macaddr\n10.0.0.1,alpha,aa:bb:cc:dd:ee:01\n").unwrap();
    let (first, rest) = out.hosts.split_once('\n').unwrap();
    assert!(first.starts_with(HOSTS_BANNER));
    assert!(first.len() > HOSTS_BANNER.len());
    assert_eq!(rest, "10.0.0.1 alpha\n");
    let (first, rest) = out.ethers.split_once('\n').unwrap();
    assert!(first.starts_with(ETHERS_BANNER));
    assert!(first.len() > ETHERS_BANNER.len());
    assert_eq!(rest, "aa:bb:cc:dd:ee:01 10.0.0.1\n");
    assert_eq!(convert_now("nothing"), Err(ConvertError::MissingHeaders));
}

#[test]
fn last_of_two_equal_header_names_counts() {
    let header = owned(&["ipaddr", "hostname", "macaddr", "ipaddr"]);
    assert_eq!(find_columns(&header), Some(Columns { ipaddr: 3, hostname: 1, macaddr: 2 }));
    let header = owned(&["macaddr", "x", "hostname", "ipaddr"]);
    assert_eq!(find_columns(&header), Some(Columns { ipaddr: 3, hostname: 2, macaddr: 0 }));
    assert_eq!(find_columns(&owned(&["ipaddr", "macaddr"])), None);
    assert_eq!(find_columns(&owned(&[])), None);
}

#[test]
fn new_conversion_holds_the_first_lines() {
    let out = Conversion::new("T");
    assert_eq!(out.hosts, "# hosts automatically generated by etherhosts T\n");
    assert_eq!(out.ethers, "# ethers automatically generated by etherhosts T\n");
    assert!(out.diagnostics.is_empty());
}

#[test]
fn add_row_writes_pairs() {
    let mut out = fresh();
    out.add_row(7, "10.0.0.1", Ok("alpha".to_string()), Ok("aa:bb:cc:dd:ee:ff".to_string()));
    assert_eq!(out.hosts, "10.0.0.1 alpha\n");
    assert_eq!(out.ethers, "aa:bb:cc:dd:ee:ff 10.0.0.1\n");
    assert!(out.diagnostics.is_empty());
}

#[test]
fn add_row_is_silent_on_empty_reasons() {
    let mut out = fresh();
    out.add_row(7, "10.0.0.1", Err(String::new()), Ok("aa:bb:cc:dd:ee:ff".to_string()));
    assert_eq!(out.hosts, "");
    assert_eq!(out.ethers, "aa:bb:cc:dd:ee:ff 10.0.0.1\n");
    assert!(out.diagnostics.is_empty());
    out.add_row(8, "10.0.0.2", Err(String::new()), Err(String::new()));
    assert_eq!(out.hosts, "");
    assert_eq!(out.ethers, "aa:bb:cc:dd:ee:ff 10.0.0.1\n");
    assert!(out.diagnostics.is_empty());
}

#[test]
fn add_row_reports_reasons() {
    let mut out = fresh();
    out.add_row(4, "10.0.0.1", Err("bad name".to_string()), Err("bad mac".to_string()));
    assert_eq!(out.hosts, "");
    assert_eq!(out.ethers, "");
    assert_eq!(
        out.diagnostics,
        vec![note(4, Field::Hostname, "bad name"), note(4, Field::MacAddr, "bad mac")]
    );
}

#[test]
fn skip_row_adds_a_diagnostic_and_no_line() {
    let mut out = Conversion::new("T");
    out.skip_row(2, "ipaddr failed regex check".to_string());
    assert_eq!(out.hosts, "# hosts automatically generated by etherhosts T\n");
    assert_eq!(out.ethers, "# ethers automatically generated by etherhosts T\n");
    assert_eq!(out.diagnostics, vec![note(2, Field::IpAddr, "ipaddr failed regex check")]);
}

#[test]
fn convert_row_reads_cells_by_column() {
    let columns = Columns { ipaddr: 2, hostname: 0, macaddr: 1 };
    let mut out = fresh();
    let cells = owned(&["alpha", "AA-BB-CC-DD-EE-FF", " 10.0.0.1 "]);
    assert_eq!(out.convert_row(&columns, 2, &cells), Ok(()));
    assert_eq!(out.hosts, "10.0.0.1 alpha\n");
    assert_eq!(out.ethers, "aa:bb:cc:dd:ee:ff 10.0.0.1\n");
    let cells = owned(&["alpha", "AA-BB-CC-DD-EE-FF"]);
    assert_eq!(out.convert_row(&columns, 3, &cells), Err(ConvertError::ShortRow { row: 3 }));
    assert_eq!(out.hosts, "10.0.0.1 alpha\n");
    assert!(out.diagnostics.is_empty());
}
