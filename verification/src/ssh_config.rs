//! The operator's SSH client configuration, as far as connecting needs it:
//! for each `Host` label the host name, the user and the port to use.

use vstd::prelude::*;
use vstd::string::*;
use crate::text::{
    first_index, has_prefix, int_text, int_to_string, lemma_first_index, lemma_first_index_found,
    lines, lowercase, parse_i32, parsed_i32, split, split_at_char, starts_with, str_eq,
    text_lines, to_lowercase, trim, trimmed, views,
};

verus! {

/// What the configuration says of one `Host` label.
#[derive(Debug, Clone, PartialEq, Eq)]
pub struct SSHConfigHost {
    pub hostname: String,
    pub user: String,
    pub port: String,
}

/// What an `SSHConfigHost` holds, as plain values.
pub struct SSHConfigHostView {
    pub hostname: Seq<char>,
    pub user: Seq<char>,
    pub port: Seq<char>,
}

impl View for SSHConfigHost {
    type V = SSHConfigHostView;

    open spec fn view(&self) -> SSHConfigHostView {
        SSHConfigHostView { hostname: self.hostname@, user: self.user@, port: self.port@ }
    }
}

/// What a label stands for until the configuration says more: no host
/// name, no user, and port 22.
pub open spec fn default_host() -> SSHConfigHostView {
    SSHConfigHostView { hostname: Seq::empty(), user: Seq::empty(), port: "22"@ }
}

impl Default for SSHConfigHost {
    fn default() -> (host: SSHConfigHost)
        ensures
            host@ == default_host(),
    {
        SSHConfigHost { hostname: String::new(), user: String::new(), port: "22".to_owned() }
    }
}

/// A `Host` label with what the configuration says of it.
#[derive(Debug, Clone, PartialEq, Eq)]
pub struct SSHConfigEntry {
    pub label: String,
    pub host: SSHConfigHost,
}

/// What an `SSHConfigEntry` holds, as plain values.
pub struct SSHConfigEntryView {
    pub label: Seq<char>,
    pub host: SSHConfigHostView,
}

impl View for SSHConfigEntry {
    type V = SSHConfigEntryView;

    open spec fn view(&self) -> SSHConfigEntryView {
        SSHConfigEntryView { label: self.label@, host: self.host@ }
    }
}

/// The configuration: a table from labels to hosts, in the order in which
/// the labels first appeared.
#[derive(Debug, Clone, PartialEq, Eq)]
pub struct SSHConfig {
    pub entries: Vec<SSHConfigEntry>,
}

impl View for SSHConfig {
    type V = Seq<SSHConfigEntryView>;

    open spec fn view(&self) -> Seq<SSHConfigEntryView> {
        self.entries@.map_values(|e: SSHConfigEntry| e@)
    }
}

/// Why a configuration text could not be read.
#[derive(Debug, Clone, Copy, PartialEq, Eq, Structural)]
pub enum ConfigError {
    /// The `Host` line with this number, counted from one, names no label.
    HostWithoutLabel { line: usize },
    /// The option line with this number, counted from one, gives no value.
    OptionWithoutValue { line: usize },
}

/// The labels of a table, in its order.
pub open spec fn labels(table: Seq<SSHConfigEntryView>) -> Seq<Seq<char>> {
    table.map_values(|e: SSHConfigEntryView| e.label)
}

/// Where the entry of a label stands; the length of the table where there
/// is none.
pub open spec fn label_index(table: Seq<SSHConfigEntryView>, label: Seq<char>) -> nat {
    first_index(labels(table), label)
}

/// No label has two entries.
pub open spec fn unique_labels(table: Seq<SSHConfigEntryView>) -> bool {
    labels(table).no_duplicates()
}

/// The table after `label` was given `host`: in the place of the label's
/// entry where it has one, else at the end.
pub open spec fn with_entry(
    table: Seq<SSHConfigEntryView>,
    label: Seq<char>,
    host: SSHConfigHostView,
) -> Seq<SSHConfigEntryView> {
    let i = label_index(table, label) as int;
    let entry = SSHConfigEntryView { label, host };
    if i < table.len() {
        table.update(i, entry)
    } else {
        table.push(entry)
    }
}

/// A host after one option was read. `option` is in lower case. The options
/// `hostname` and `user` take the value as it is; `port` takes it where it is
/// an integer, written anew in decimal; any other option changes nothing.
pub open spec fn with_option(
    host: SSHConfigHostView,
    option: Seq<char>,
    value: Seq<char>,
) -> SSHConfigHostView {
    if option == "hostname"@ {
        SSHConfigHostView { hostname: value, ..host }
    } else if option == "user"@ {
        SSHConfigHostView { user: value, ..host }
    } else if option == "port"@ {
        match parsed_i32(value) {
            Some(port) => SSHConfigHostView { port: int_text(port as int), ..host },
            None => host,
        }
    } else {
        host
    }
}

/// The table after an option was read for `label`. A label without an entry
/// leaves the table as it is.
pub open spec fn with_entry_option(
    table: Seq<SSHConfigEntryView>,
    label: Seq<char>,
    option: Seq<char>,
    value: Seq<char>,
) -> Seq<SSHConfigEntryView> {
    let i = label_index(table, label) as int;
    if i < table.len() {
        table.update(
            i,
            SSHConfigEntryView { label: table[i].label, host: with_option(table[i].host, option, value) },
        )
    } else {
        table
    }
}

/// Reads one option into a host. `option` is expected in lower case.
pub fn apply_option(host: &mut SSHConfigHost, option: &str, value: &str)
    ensures
        final(host)@ == with_option(old(host)@, option@, value@),
{
    if str_eq(option, "hostname") {
        host.hostname = value.to_owned();
    } else if str_eq(option, "user") {
        host.user = value.to_owned();
    } else if str_eq(option, "port") {
        match parse_i32(value) {
            Some(port) => {
                host.port = int_to_string(port);
            },
            None => {},
        }
    }
}

impl SSHConfig {
    /// A configuration without entries.
    pub fn new() -> (config: SSHConfig)
        ensures
            config@ == Seq::<SSHConfigEntryView>::empty(),
            unique_labels(config@),
    {
        let config = SSHConfig { entries: Vec::new() };
        config
    }

    fn position(&self, label: &str) -> (i: usize)
        ensures
            i == label_index(self@, label@),
            i <= self.entries@.len(),
    {
        let mut i: usize = 0;
        while i < self.entries.len()
            invariant
                i <= self.entries@.len(),
                forall|j: int| 0 <= j < i ==> labels(self@)[j] != label@,
            ensures
                i <= self.entries@.len(),
                forall|j: int| 0 <= j < i ==> labels(self@)[j] != label@,
                i < self.entries@.len() ==> labels(self@)[i as int] == label@,
            decreases self.entries@.len() - i,
        {
            if str_eq(self.entries[i].label.as_str(), label) {
                break;
            }
            i += 1;
        }
        proof {
            lemma_first_index(labels(self@), label@, i as int);
        }
        i
    }

    /// What the configuration says of a label.
    pub fn get(&self, label: &str) -> (found: Option<&SSHConfigHost>)
        ensures
            found is Some == (label_index(self@, label@) < self@.len()),
            found matches Some(h) ==> h@ == self@[label_index(self@, label@) as int].host,
    {
        let i = self.position(label);
        if i < self.entries.len() {
            Some(&self.entries[i].host)
        } else {
            None
        }
    }

    /// Gives a label a host, in place of the one it had.
    pub fn insert(&mut self, label: &str, host: SSHConfigHost)
        ensures
            final(self)@ == with_entry(old(self)@, label@, host@),
            unique_labels(old(self)@) ==> unique_labels(final(self)@),
    {
        let i = self.position(label);
        let entry = SSHConfigEntry { label: label.to_owned(), host };
        proof {
            lemma_first_index_found(labels(self@), label@);
        }
        if i < self.entries.len() {
            self.entries[i] = entry;
            assert(labels(self@) =~= labels(old(self)@));
        } else {
            self.entries.push(entry);
            assert(labels(self@) =~= labels(old(self)@).push(label@));
        }
    }

    /// Reads one option for a label. `option` is expected in lower case.
    pub fn set_option(&mut self, label: &str, option: &str, value: &str)
        ensures
            final(self)@ == with_entry_option(old(self)@, label@, option@, value@),
            unique_labels(old(self)@) ==> unique_labels(final(self)@),
    {
        let i = self.position(label);
        if i < self.entries.len() {
            apply_option(&mut self.entries[i].host, option, value);
            assert(labels(self@) =~= labels(old(self)@));
        }
    }
}

/// What reading has arrived at: the table so far, and the label that option
/// lines belong to. The label is empty between `Host` sections.
pub struct ParseState {
    pub table: Seq<SSHConfigEntryView>,
    pub current: Seq<char>,
}

/// A line that opens a `Host` section.
pub open spec fn is_host_line(line: Seq<char>) -> bool {
    has_prefix(line, "Host"@)
}

/// A line that gives an option of the section that is open: it starts with
/// a blank or a tab and holds more than whitespace.
pub open spec fn is_option_line(line: Seq<char>, current: Seq<char>) -> bool {
    &&& current.len() > 0
    &&& trimmed(line).len() > 0
    &&& line.len() > 0
    &&& (line[0] == ' ' || line[0] == '\t')
}

/// Reading one line, which has the given number.
///
/// A `Host` line takes the text between its first and second blank as the
/// label, gives the label a fresh entry and opens its section. An option line
/// is trimmed and split at blanks: the first piece, trimmed and in lower
/// case, is the option, the second, trimmed, its value. Any other line
/// closes the section.
pub open spec fn read_line(state: ParseState, line: Seq<char>, number: usize) -> Result<
    ParseState,
    ConfigError,
> {
    if is_host_line(line) {
        let pieces = split(line, ' ');
        if pieces.len() < 2 {
            Err(ConfigError::HostWithoutLabel { line: number })
        } else {
            Ok(
                ParseState {
                    table: with_entry(state.table, pieces[1], default_host()),
                    current: pieces[1],
                },
            )
        }
    } else if is_option_line(line, state.current) {
        let pieces = split(trimmed(line), ' ');
        if pieces.len() < 2 {
            Err(ConfigError::OptionWithoutValue { line: number })
        } else {
            Ok(
                ParseState {
                    table: with_entry_option(
                        state.table,
                        state.current,
                        lowercase(trimmed(pieces[0])),
                        trimmed(pieces[1]),
                    ),
                    current: state.current,
                },
            )
        }
    } else {
        Ok(ParseState { table: state.table, current: Seq::empty() })
    }
}

/// Reading lines in order, from an empty table. The first line that cannot
/// be read ends it.
pub open spec fn read_lines(lines: Seq<Seq<char>>) -> Result<ParseState, ConfigError>
    decreases lines.len(),
{
    if lines.len() == 0 {
        Ok(ParseState { table: Seq::empty(), current: Seq::empty() })
    } else {
        match read_lines(lines.drop_last()) {
            Err(e) => Err(e),
            Ok(state) => read_line(state, lines.last(), lines.len() as usize),
        }
    }
}

/// What a configuration text says: its table, or the first line at fault.
pub open spec fn parsed(text: Seq<char>) -> Result<Seq<SSHConfigEntryView>, ConfigError> {
    match read_lines(text_lines(text)) {
        Ok(state) => Ok(state.table),
        Err(e) => Err(e),
    }
}

/// Reads a configuration text.
pub fn parse(text: &str) -> (result: Result<SSHConfig, ConfigError>)
    ensures
        match parsed(text@) {
            Ok(table) => result matches Ok(config) && config@ == table,
            Err(e) => result matches Err(found) && found == e,
        },
        result matches Ok(config) ==> unique_labels(config@),
{
    let all = lines(text);
    let mut config = SSHConfig::new();
    let mut current = String::new();
    let mut i: usize = 0;
    while i < all.len()
        invariant
            i <= all@.len(),
            views(all@) == text_lines(text@),
            unique_labels(config@),
            read_lines(views(all@).take(i as int)) == Ok::<ParseState, ConfigError>(
                ParseState { table: config@, current: current@ },
            ),
        decreases all@.len() - i,
    {
        let line = all[i].as_str();
        proof {
            let next = views(all@).take(i + 1);
            assert(next.drop_last() =~= views(all@).take(i as int));
        }
        if starts_with(line, "Host") {
            let pieces = split_at_char(line, ' ');
            if pieces.len() < 2 {
                proof {
                    lemma_read_lines_stops(views(all@), i + 1);
                }
                return Err(ConfigError::HostWithoutLabel { line: i + 1 });
            }
            let label = pieces[1].clone();
            config.insert(label.as_str(), SSHConfigHost::default());
            current = label;
        } else {
            let stripped = trim(line);
            if !current.as_str().is_empty() && !stripped.as_str().is_empty() && line.unicode_len()
                > 0 && (line.get_char(0) == ' ' || line.get_char(0) == '\t') {
                let pieces = split_at_char(stripped.as_str(), ' ');
                if pieces.len() < 2 {
                    proof {
                        lemma_read_lines_stops(views(all@), i + 1);
                    }
                    return Err(ConfigError::OptionWithoutValue { line: i + 1 });
                }
                let option = to_lowercase(trim(pieces[0].as_str()).as_str());
                let value = trim(pieces[1].as_str());
                config.set_option(current.as_str(), option.as_str(), value.as_str());
            } else {
                current = String::new();
            }
        }
        i += 1;
    }
    assert(views(all@).take(all@.len() as int) =~= views(all@));
    Ok(config)
}

/// Once a prefix of the lines cannot be read, the whole cannot, and for the
/// same reason.
pub proof fn lemma_read_lines_stops(lines: Seq<Seq<char>>, k: int)
    requires
        0 <= k <= lines.len(),
        read_lines(lines.take(k)) is Err,
    ensures
        read_lines(lines) == read_lines(lines.take(k)),
    decreases lines.len() - k,
{
    if k == lines.len() {
        assert(lines.take(k) =~= lines);
    } else {
        assert(lines.take(k + 1).drop_last() =~= lines.take(k));
        lemma_read_lines_stops(lines, k + 1);
    }
}

} // verus!
