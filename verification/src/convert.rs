//! From the text of a CSV inventory to the text of a hosts file and of an
//! ethers file.
//!
//! The first line names the columns. Every later line is a row: a row whose
//! IP address fails is skipped with a diagnostic; otherwise a valid hostname
//! gives a line of the hosts text and a valid MAC address a line of the
//! ethers text. Rows are numbered as a reader of the file counts its lines,
//! from 1, the header being line 1.

use vstd::prelude::*;
use vstd::string::StringExecFns;
use crate::clock::{local_time, STAMP_LAYOUT};
use crate::csv::{process_csv_line, split_cells};
use crate::diagnostic::{Diagnostic, Field, Note};
use crate::fields::{
    clean_hostname,
    clean_ipaddr,
    clean_mac,
    cleaned_hostname,
    cleaned_ipaddr,
    cleaned_macaddr,
    cleaned_view,
    lemma_empty_reason_means_blank,
    Cleaned,
};
use crate::text::{blank, lines, lines_of};

verus! {

broadcast use vstd::string::group_string_axioms;

pub const IPADDR_COLUMN: &'static str = "ipaddr";

pub const HOSTNAME_COLUMN: &'static str = "hostname";

pub const MACADDR_COLUMN: &'static str = "macaddr";

pub const HOSTS_BANNER: &'static str = "# hosts automatically generated by etherhosts ";

pub const ETHERS_BANNER: &'static str = "# ethers automatically generated by etherhosts ";

/// Where the three columns stand in a row, counted from 0.
#[derive(Clone, Copy, Debug, PartialEq, Eq, Structural)]
pub struct Columns {
    pub ipaddr: usize,
    pub hostname: usize,
    pub macaddr: usize,
}

/// The column positions as the contracts see them.
pub struct Layout {
    pub ipaddr: int,
    pub hostname: int,
    pub macaddr: int,
}

impl View for Columns {
    type V = Layout;

    open spec fn view(&self) -> Layout {
        Layout {
            ipaddr: self.ipaddr as int,
            hostname: self.hostname as int,
            macaddr: self.macaddr as int,
        }
    }
}

/// Why a conversion gave no output.
#[derive(Clone, Copy, Debug, PartialEq, Eq, Structural)]
pub enum ConvertError {
    /// The text has no first line, or its first line lacks one of the three
    /// column names.
    MissingHeaders,
    /// The row lacks a cell that had to be read.
    ShortRow { row: usize },
}

/// The two output texts and the diagnostics, in the order of the rows.
#[derive(Debug, PartialEq, Eq)]
pub struct Conversion {
    pub hosts: String,
    pub ethers: String,
    pub diagnostics: Vec<Diagnostic>,
}

/// A stretch of output as the contracts see it.
pub struct Emitted {
    pub hosts: Seq<char>,
    pub ethers: Seq<char>,
    pub notes: Seq<Note>,
}

impl View for Conversion {
    type V = Emitted;

    open spec fn view(&self) -> Emitted {
        Emitted { hosts: self.hosts@, ethers: self.ethers@, notes: self.diagnostics.deep_view() }
    }
}

impl Emitted {
    /// No output at all.
    pub open spec fn nothing() -> Emitted {
        Emitted { hosts: Seq::empty(), ethers: Seq::empty(), notes: Seq::empty() }
    }

    /// This output followed by `next`.
    pub open spec fn plus(self, next: Emitted) -> Emitted {
        Emitted {
            hosts: self.hosts + next.hosts,
            ethers: self.ethers + next.ethers,
            notes: self.notes + next.notes,
        }
    }
}

/// The position of the last cell equal to `name`.
pub open spec fn last_index_of(cells: Seq<Seq<char>>, name: Seq<char>) -> Option<int>
    decreases cells.len(),
{
    if cells.len() == 0 {
        None
    } else if cells.last() == name {
        Some(cells.len() - 1)
    } else {
        last_index_of(cells.drop_last(), name)
    }
}

/// The columns that a header row names, if it names all three. Where a name
/// occurs twice, its last occurrence counts.
pub open spec fn columns_of(header: Seq<Seq<char>>) -> Option<Layout> {
    match (
        last_index_of(header, IPADDR_COLUMN@),
        last_index_of(header, HOSTNAME_COLUMN@),
        last_index_of(header, MACADDR_COLUMN@),
    ) {
        (Some(ipaddr), Some(hostname), Some(macaddr)) => Some(Layout { ipaddr, hostname, macaddr }),
        _ => None,
    }
}

/// The first line of each output text: its banner, the time stamp and a line
/// feed.
pub open spec fn banners(stamp: Seq<char>) -> Emitted {
    Emitted {
        hosts: HOSTS_BANNER@ + stamp + seq!['\n'],
        ethers: ETHERS_BANNER@ + stamp + seq!['\n'],
        notes: Seq::empty(),
    }
}

/// A line of output: two words with a space between them and a line feed
/// after them.
pub open spec fn pair_line(first: Seq<char>, second: Seq<char>) -> Seq<char> {
    first + seq![' '] + second + seq!['\n']
}

/// The diagnostic that a hostname or a MAC address gives: none where the
/// field is valid, and none where it failed with the empty reason.
pub open spec fn field_notes(row: int, field: Field, cleaned: Cleaned) -> Seq<Note> {
    match cleaned {
        Err(reason) if reason.len() > 0 => seq![Note { row, field, reason }],
        _ => Seq::empty(),
    }
}

/// What a row adds whose IP address failed: its diagnostic and no line.
pub open spec fn skipped(row: int, reason: Seq<char>) -> Emitted {
    Emitted {
        hosts: Seq::empty(),
        ethers: Seq::empty(),
        notes: seq![Note { row, field: Field::IpAddr, reason }],
    }
}

/// What a row with a valid IP address adds.
pub open spec fn emitted(row: int, ipaddr: Seq<char>, hostname: Cleaned, macaddr: Cleaned) -> Emitted {
    Emitted {
        hosts: match hostname {
            Ok(name) => pair_line(ipaddr, name),
            Err(_) => Seq::empty(),
        },
        ethers: match macaddr {
            Ok(mac) => pair_line(mac, ipaddr),
            Err(_) => Seq::empty(),
        },
        notes: field_notes(row, Field::Hostname, hostname) + field_notes(
            row,
            Field::MacAddr,
            macaddr,
        ),
    }
}

/// What the cells of one row add, or `None` where a cell that has to be read
/// is missing. The hostname and the MAC address are read only once the IP
/// address has passed.
pub open spec fn row_emitted(layout: Layout, row: int, cells: Seq<Seq<char>>) -> Option<Emitted> {
    if !(0 <= layout.ipaddr < cells.len()) {
        None
    } else {
        match cleaned_ipaddr(cells[layout.ipaddr]) {
            Err(reason) => Some(skipped(row, reason)),
            Ok(ipaddr) => if 0 <= layout.hostname < cells.len() && 0 <= layout.macaddr
                < cells.len() {
                Some(
                    emitted(
                        row,
                        ipaddr,
                        cleaned_hostname(cells[layout.hostname]),
                        cleaned_macaddr(cells[layout.macaddr]),
                    ),
                )
            } else {
                None
            },
        }
    }
}

/// What the lines from the `i`-th on add, the line at `i` being row `i + 1`.
/// The first row that lacks a cell fails the whole.
pub open spec fn rows_from(layout: Layout, lines: Seq<Seq<char>>, i: int) -> Result<
    Emitted,
    ConvertError,
>
    decreases lines.len() - i,
{
    if i < 0 || i >= lines.len() {
        Ok(Emitted::nothing())
    } else {
        match row_emitted(layout, i + 1, split_cells(lines[i])) {
            None => Err(ConvertError::ShortRow { row: (i + 1) as usize }),
            Some(first) => match rows_from(layout, lines, i + 1) {
                Ok(rest) => Ok(first.plus(rest)),
                Err(e) => Err(e),
            },
        }
    }
}

/// What the rows of a text add, after its header line.
pub open spec fn body_of(input: Seq<char>) -> Result<Emitted, ConvertError> {
    let lines = lines_of(input);
    if lines.len() == 0 {
        Err(ConvertError::MissingHeaders)
    } else {
        match columns_of(split_cells(lines[0])) {
            None => Err(ConvertError::MissingHeaders),
            Some(layout) => rows_from(layout, lines, 1),
        }
    }
}

/// The conversion of a text at a given time stamp.
pub open spec fn converted(input: Seq<char>, stamp: Seq<char>) -> Result<Emitted, ConvertError> {
    match body_of(input) {
        Ok(body) => Ok(banners(stamp).plus(body)),
        Err(e) => Err(e),
    }
}

/// The result of a conversion as the contracts see it.
pub open spec fn outcome_view(r: Result<Conversion, ConvertError>) -> Result<Emitted, ConvertError> {
    match r {
        Ok(c) => Ok(c@),
        Err(e) => Err(e),
    }
}

/// The positions that a search for the columns has found.
pub open spec fn found_view(found: Option<usize>) -> Option<int> {
    match found {
        Some(i) => Some(i as int),
        None => None,
    }
}

/// The column positions that a search returns.
pub open spec fn columns_view(r: Option<Columns>) -> Option<Layout> {
    match r {
        Some(c) => Some(c@),
        None => None,
    }
}

/// Finds the three columns in the cells of the header row.
pub fn find_columns(header: &Vec<String>) -> (r: Option<Columns>)
    ensures
        columns_view(r) == columns_of(header.deep_view()),
{
    let ipaddr_name = IPADDR_COLUMN.to_owned();
    let hostname_name = HOSTNAME_COLUMN.to_owned();
    let macaddr_name = MACADDR_COLUMN.to_owned();
    let mut ipaddr: Option<usize> = None;
    let mut hostname: Option<usize> = None;
    let mut macaddr: Option<usize> = None;
    let ghost cells = header.deep_view();
    let mut c: usize = 0;
    while c < header.len()
        invariant
            c <= header.len(),
            cells == header.deep_view(),
            ipaddr_name@ == IPADDR_COLUMN@,
            hostname_name@ == HOSTNAME_COLUMN@,
            macaddr_name@ == MACADDR_COLUMN@,
            found_view(ipaddr) == last_index_of(cells.take(c as int), IPADDR_COLUMN@),
            found_view(hostname) == last_index_of(cells.take(c as int), HOSTNAME_COLUMN@),
            found_view(macaddr) == last_index_of(cells.take(c as int), MACADDR_COLUMN@),
        decreases header.len() - c,
    {
        proof {
            let wider = cells.take(c + 1);
            assert(wider.drop_last() =~= cells.take(c as int));
            assert(wider.last() == header[c as int]@);
        }
        if header[c] == ipaddr_name {
            ipaddr = Some(c);
        }
        if header[c] == hostname_name {
            hostname = Some(c);
        }
        if header[c] == macaddr_name {
            macaddr = Some(c);
        }
        c += 1;
    }
    assert(cells.take(c as int) =~= cells);
    match (ipaddr, hostname, macaddr) {
        (Some(ipaddr), Some(hostname), Some(macaddr)) => Some(Columns { ipaddr, hostname, macaddr }),
        _ => None,
    }
}

impl Conversion {
    /// The output before any row: the first line of each text.
    pub fn new(stamp: &str) -> (out: Conversion)
        ensures
            out@ == banners(stamp@),
    {
        let mut hosts = HOSTS_BANNER.to_owned();
        hosts.append(stamp);
        hosts.push('\n');
        let mut ethers = ETHERS_BANNER.to_owned();
        ethers.append(stamp);
        ethers.push('\n');
        let out = Conversion { hosts, ethers, diagnostics: Vec::new() };
        assert(out@.hosts =~= banners(stamp@).hosts);
        assert(out@.ethers =~= banners(stamp@).ethers);
        assert(out@.notes =~= banners(stamp@).notes);
        out
    }

    /// Records a row whose IP address failed with `reason`.
    pub fn skip_row(&mut self, row: usize, reason: String)
        ensures
            final(self)@ == old(self)@.plus(skipped(row as int, reason@)),
    {
        let ghost before = self@;
        self.diagnostics.push(Diagnostic { row, field: Field::IpAddr, reason });
        assert(self@.hosts =~= before.plus(skipped(row as int, reason@)).hosts);
        assert(self@.ethers =~= before.plus(skipped(row as int, reason@)).ethers);
        assert(self@.notes =~= before.plus(skipped(row as int, reason@)).notes);
    }

    /// Adds what a row with the valid IP address `ipaddr` gives, once its
    /// hostname and its MAC address have been cleaned.
    pub fn add_row(
        &mut self,
        row: usize,
        ipaddr: &str,
        hostname: Result<String, String>,
        macaddr: Result<String, String>,
    )
        ensures
            final(self)@ == old(self)@.plus(
                emitted(row as int, ipaddr@, cleaned_view(hostname), cleaned_view(macaddr)),
            ),
    {
        let ghost before = self@;
        let ghost added = emitted(row as int, ipaddr@, cleaned_view(hostname), cleaned_view(macaddr));
        match hostname {
            Ok(name) => {
                self.hosts.append(ipaddr);
                self.hosts.push(' ');
                self.hosts.append(name.as_str());
                self.hosts.push('\n');
            },
            Err(reason) => {
                if !reason.as_str().is_empty() {
                    self.diagnostics.push(Diagnostic { row, field: Field::Hostname, reason });
                }
            },
        }
        assert(self@.hosts =~= before.hosts + added.hosts);
        assert(self@.notes =~= before.notes + field_notes(
            row as int,
            Field::Hostname,
            cleaned_view(hostname),
        ));
        match macaddr {
            Ok(mac) => {
                self.ethers.append(mac.as_str());
                self.ethers.push(' ');
                self.ethers.append(ipaddr);
                self.ethers.push('\n');
            },
            Err(reason) => {
                if !reason.as_str().is_empty() {
                    self.diagnostics.push(Diagnostic { row, field: Field::MacAddr, reason });
                }
            },
        }
        assert(self@.hosts =~= before.plus(added).hosts);
        assert(self@.ethers =~= before.plus(added).ethers);
        assert(self@.notes =~= before.plus(added).notes);
    }

    /// Cleans the cells of one row and adds what they give. Where a cell
    /// that has to be read is missing, nothing is added.
    pub fn convert_row(&mut self, columns: &Columns, row: usize, cells: &Vec<String>) -> (r: Result<
        (),
        ConvertError,
    >)
        ensures
            match row_emitted(columns@, row as int, cells.deep_view()) {
                Some(added) => r is Ok && final(self)@ == old(self)@.plus(added),
                None => {
                    &&& r == Err::<(), ConvertError>(ConvertError::ShortRow { row })
                    &&& final(self)@ == old(self)@
                },
            },
    {
        if columns.ipaddr >= cells.len() {
            return Err(ConvertError::ShortRow { row });
        }
        match clean_ipaddr(cells[columns.ipaddr].as_str()) {
            Err(reason) => {
                self.skip_row(row, reason);
                Ok(())
            },
            Ok(ipaddr) => {
                if columns.hostname >= cells.len() || columns.macaddr >= cells.len() {
                    return Err(ConvertError::ShortRow { row });
                }
                let hostname = clean_hostname(cells[columns.hostname].as_str());
                let macaddr = clean_mac(cells[columns.macaddr].as_str());
                self.add_row(row, ipaddr.as_str(), hostname, macaddr);
                Ok(())
            },
        }
    }
}

/// A row whose IP address fails adds no line to either text, and one
/// diagnostic that carries its row number.
pub proof fn lemma_bad_ipaddr_skips_row(layout: Layout, row: int, cells: Seq<Seq<char>>)
    requires
        0 <= layout.ipaddr < cells.len(),
        cleaned_ipaddr(cells[layout.ipaddr]) is Err,
    ensures
        row_emitted(layout, row, cells) matches Some(added) && {
            &&& added.hosts.len() == 0
            &&& added.ethers.len() == 0
            &&& added.notes.len() == 1
            &&& added.notes[0].row == row
            &&& added.notes[0].field == Field::IpAddr
        },
{
}

/// In a row with a valid IP address, a blank hostname costs the hosts line
/// and a blank MAC address the ethers line, and neither gives a diagnostic.
pub proof fn lemma_blank_cells_are_silent(layout: Layout, row: int, cells: Seq<Seq<char>>)
    requires
        0 <= layout.ipaddr < cells.len(),
        0 <= layout.hostname < cells.len(),
        0 <= layout.macaddr < cells.len(),
        cleaned_ipaddr(cells[layout.ipaddr]) is Ok,
    ensures
        row_emitted(layout, row, cells) matches Some(added) && {
            &&& blank(cells[layout.hostname]) ==> added.hosts.len() == 0 && added.notes
                == field_notes(row, Field::MacAddr, cleaned_macaddr(cells[layout.macaddr]))
            &&& blank(cells[layout.macaddr]) ==> added.ethers.len() == 0 && added.notes
                == field_notes(row, Field::Hostname, cleaned_hostname(cells[layout.hostname]))
            &&& blank(cells[layout.hostname]) && blank(cells[layout.macaddr]) ==> added.notes.len()
                == 0
        },
{
    lemma_empty_reason_means_blank(cells[layout.hostname]);
    lemma_empty_reason_means_blank(cells[layout.macaddr]);
    let added = row_emitted(layout, row, cells)->0;
    let host_notes = field_notes(row, Field::Hostname, cleaned_hostname(cells[layout.hostname]));
    let mac_notes = field_notes(row, Field::MacAddr, cleaned_macaddr(cells[layout.macaddr]));
    if blank(cells[layout.hostname]) {
        assert(host_notes + mac_notes =~= mac_notes);
    }
    if blank(cells[layout.macaddr]) {
        assert(host_notes + mac_notes =~= host_notes);
    }
}

/// Output followed by more output, where the rest did not fail.
spec fn followed_by(done: Emitted, rest: Result<Emitted, ConvertError>) -> Result<
    Emitted,
    ConvertError,
> {
    match rest {
        Ok(more) => Ok(done.plus(more)),
        Err(e) => Err(e),
    }
}

/// Putting output together does not depend on how it is grouped.
proof fn lemma_plus_associative(a: Emitted, b: Emitted, c: Emitted)
    ensures
        a.plus(b).plus(c) == a.plus(b.plus(c)),
{
    assert(a.plus(b).plus(c).hosts =~= a.plus(b.plus(c)).hosts);
    assert(a.plus(b).plus(c).ethers =~= a.plus(b.plus(c)).ethers);
    assert(a.plus(b).plus(c).notes =~= a.plus(b.plus(c)).notes);
}

/// Converts the text of a CSV inventory. `stamp` is the time that the first
/// line of each output text shows.
pub fn convert(input: &str, stamp: &str) -> (r: Result<Conversion, ConvertError>)
    ensures
        outcome_view(r) == converted(input@, stamp@),
{
    let all = lines(input);
    if all.len() == 0 {
        return Err(ConvertError::MissingHeaders);
    }
    let header = process_csv_line(all[0].as_str());
    let columns = match find_columns(&header) {
        Some(columns) => columns,
        None => {
            return Err(ConvertError::MissingHeaders);
        },
    };
    let mut out = Conversion::new(stamp);
    let ghost layout = columns@;
    let ghost texts = all.deep_view();
    let mut i: usize = 1;
    proof {
        lemma_plus_associative(banners(stamp@), Emitted::nothing(), Emitted::nothing());
        assert(out@.hosts =~= out@.plus(Emitted::nothing()).hosts);
        assert(out@.ethers =~= out@.plus(Emitted::nothing()).ethers);
        assert(out@.notes =~= out@.plus(Emitted::nothing()).notes);
    }
    while i < all.len()
        invariant
            1 <= i <= all.len(),
            texts == all.deep_view(),
            texts == lines_of(input@),
            layout == columns@,
            body_of(input@) == rows_from(layout, texts, 1),
            followed_by(out@, rows_from(layout, texts, i as int)) == followed_by(
                banners(stamp@),
                rows_from(layout, texts, 1),
            ),
        decreases all.len() - i,
    {
        let cells = process_csv_line(all[i].as_str());
        let ghost before = out@;
        assert(cells.deep_view() == split_cells(texts[i as int]));
        match out.convert_row(&columns, i + 1, &cells) {
            Err(e) => {
                return Err(e);
            },
            Ok(()) => {
                proof {
                    let first = row_emitted(layout, i + 1, split_cells(texts[i as int]))->0;
                    match rows_from(layout, texts, i + 1) {
                        Ok(rest) => {
                            lemma_plus_associative(before, first, rest);
                        },
                        Err(_) => {},
                    }
                }
            },
        }
        i += 1;
    }
    proof {
        assert(out@.hosts =~= out@.plus(Emitted::nothing()).hosts);
        assert(out@.ethers =~= out@.plus(Emitted::nothing()).ethers);
        assert(out@.notes =~= out@.plus(Emitted::nothing()).notes);
    }
    Ok(out)
}

/// Converts the text of a CSV inventory, with the local time of the call in
/// the first line of each output text.
pub fn convert_now(input: &str) -> (r: Result<Conversion, ConvertError>)
    ensures
        exists|stamp: Seq<char>| outcome_view(r) == converted(input@, stamp),
{
    let stamp = local_time(STAMP_LAYOUT);
    convert(input, stamp.as_str())
}

/// The time stamp shows in the first line of each text and nowhere else:
/// two conversions of one text fail alike, or give the same diagnostics and
/// texts that are the same after their first lines.
pub proof fn lemma_rows_independent_of_stamp(input: Seq<char>, stamp: Seq<char>, other: Seq<char>)
    ensures
        match (converted(input, stamp), converted(input, other)) {
            (Ok(a), Ok(b)) => {
                &&& a.notes == b.notes
                &&& a.hosts.take(banners(stamp).hosts.len() as int) == banners(stamp).hosts
                &&& a.ethers.take(banners(stamp).ethers.len() as int) == banners(stamp).ethers
                &&& a.hosts.skip(banners(stamp).hosts.len() as int) == b.hosts.skip(
                    banners(other).hosts.len() as int,
                )
                &&& a.ethers.skip(banners(stamp).ethers.len() as int) == b.ethers.skip(
                    banners(other).ethers.len() as int,
                )
            },
            (Err(e), Err(f)) => e == f,
            _ => false,
        },
{
    match body_of(input) {
        Ok(body) => {
            let a = banners(stamp).plus(body);
            let b = banners(other).plus(body);
            assert(a.notes =~= b.notes);
            assert(a.hosts.take(banners(stamp).hosts.len() as int) =~= banners(stamp).hosts);
            assert(a.ethers.take(banners(stamp).ethers.len() as int) =~= banners(stamp).ethers);
            assert(a.hosts.skip(banners(stamp).hosts.len() as int) =~= body.hosts);
            assert(b.hosts.skip(banners(other).hosts.len() as int) =~= body.hosts);
            assert(a.ethers.skip(banners(stamp).ethers.len() as int) =~= body.ethers);
            assert(b.ethers.skip(banners(other).ethers.len() as int) =~= body.ethers);
        },
        Err(_) => {},
    }
}

} // verus!
