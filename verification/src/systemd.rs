//! Systemd unit discovery and management: reading a unit file, the binaries
//! that a service runs, the units it requires, and where it is installed.
//!
//! A unit file is read line by line: blank lines and lines starting with `#`
//! or `;` are skipped, `[Name]` opens a section, and `Key=Value` sets a
//! property of the current section (properties before any section belong to
//! the section with the empty name). Surrounding blanks are trimmed from lines,
//! keys and values; anything else is a parse error at that line.

use crate::path::{extension_of, parse_path, PathView, VfsPath};
use crate::search::{
    found_first, found_nowhere, path_views, search_paths, socket_install_paths,
    socket_install_paths_exec, unit_install_paths, unit_install_paths_exec, unit_search_paths,
    unit_search_paths_exec,
};
use crate::text::{
    ends_with, ends_with_chars, find_char, position_of, split, split_chars, str_eq,
    string_views, substring, trim_chars, trim_matches, trim_start_chars, trim_start_matches,
};
use vstd::prelude::*;
use vstd::utf8::encode_utf8;

verus! {

/// Custom error type for unit file processing.
#[derive(Debug)]
pub enum UnitError {
    InputOutput(std::io::Error),
    /// The unit file does not parse; the index of the first bad line.
    Parse(usize),
    UnitNotFound(VfsPath),
    /// A `[Service]` section without an `ExecStart=` property.
    MissingExecStart,
    /// No property in a `[Unit]` section.
    MissingUnitSection,
}

/// The characters trimmed around lines, keys and values.
pub open spec fn blank_chars() -> Seq<char> {
    seq![' ', '\t', '\r']
}

/// What a line of a unit file holds.
pub enum LineView {
    Skip,
    Header(Seq<char>),
    Entry(Seq<char>, Seq<char>),
    Bad,
}

/// How a line of a unit file is read.
pub open spec fn line_view(line: Seq<char>) -> LineView {
    let t = trim_chars(line, blank_chars());
    if t.len() == 0 || t[0] == '#' || t[0] == ';' {
        LineView::Skip
    } else if t[0] == '[' {
        if t.len() >= 2 && t.last() == ']' {
            LineView::Header(t.subrange(1, t.len() - 1))
        } else {
            LineView::Bad
        }
    } else {
        match find_char(t, '=') {
            Some(i) => {
                let key = trim_chars(t.take(i), blank_chars());
                if key.len() == 0 {
                    LineView::Bad
                } else {
                    LineView::Entry(key, trim_chars(t.skip(i + 1), blank_chars()))
                }
            },
            None => LineView::Bad,
        }
    }
}

/// A property of a unit file: its section, its key and its value.
pub struct PropertyView {
    pub section: Seq<char>,
    pub key: Seq<char>,
    pub value: Seq<char>,
}

/// The current section after the given lines and the properties they set, in
/// order; or the index of the first bad line.
pub open spec fn parse_lines(lines: Seq<Seq<char>>) -> Result<(Seq<char>, Seq<PropertyView>), int>
    decreases lines.len(),
{
    if lines.len() == 0 {
        Ok((Seq::empty(), Seq::empty()))
    } else {
        match parse_lines(lines.drop_last()) {
            Err(i) => Err(i),
            Ok((section, props)) => match line_view(lines.last()) {
                LineView::Skip => Ok((section, props)),
                LineView::Header(name) => Ok((name, props)),
                LineView::Entry(key, value) => Ok(
                    (section, props.push(PropertyView { section, key, value })),
                ),
                LineView::Bad => Err(lines.len() - 1),
            },
        }
    }
}

proof fn lemma_parse_lines_err(ls: Seq<Seq<char>>, k: int)
    requires
        0 <= k <= ls.len(),
        parse_lines(ls.take(k)) is Err,
    ensures
        parse_lines(ls) == parse_lines(ls.take(k)),
    decreases ls.len() - k,
{
    if k < ls.len() {
        assert(ls.take(k + 1).drop_last() =~= ls.take(k));
        lemma_parse_lines_err(ls, k + 1);
    } else {
        assert(ls.take(k) =~= ls);
    }
}

/// The properties of a unit file, in order; or the index of its first bad
/// line.
pub open spec fn parse_unit(text: Seq<char>) -> Result<Seq<PropertyView>, int> {
    match parse_lines(split_chars(text, '\n')) {
        Ok((_, props)) => Ok(props),
        Err(i) => Err(i),
    }
}

/// A property of a unit file.
#[derive(Debug)]
pub struct UnitProperty {
    pub section: String,
    pub key: String,
    pub value: String,
}

impl UnitProperty {
    pub open spec fn view(&self) -> PropertyView {
        PropertyView { section: self.section@, key: self.key@, value: self.value@ }
    }
}

/// The abstract values of properties.
pub open spec fn property_views(v: Seq<UnitProperty>) -> Seq<PropertyView> {
    v.map_values(|p: UnitProperty| p.view())
}

/// What a line holds.
enum LineKind {
    Skip,
    Header(String),
    Entry(String, String),
    Bad,
}

impl LineKind {
    spec fn view(&self) -> LineView {
        match self {
            LineKind::Skip => LineView::Skip,
            LineKind::Header(n) => LineView::Header(n@),
            LineKind::Entry(k, v) => LineView::Entry(k@, v@),
            LineKind::Bad => LineView::Bad,
        }
    }
}

fn read_line(line: &str) -> (r: LineKind)
    ensures
        r.view() == line_view(line@),
{
    let blanks = [' ', '\t', '\r'];
    assert(blanks@ =~= blank_chars());
    let t = trim_matches(line, &blanks);
    let n = t.as_str().unicode_len();
    if n == 0 {
        return LineKind::Skip;
    }
    let first = t.as_str().get_char(0);
    if first == '#' || first == ';' {
        return LineKind::Skip;
    }
    if first == '[' {
        if n >= 2 && t.as_str().get_char(n - 1) == ']' {
            return LineKind::Header(substring(t.as_str(), 1, n - 1));
        } else {
            return LineKind::Bad;
        }
    }
    assert(t@[0] == first);
    match position_of(t.as_str(), '=') {
        Some(i) => {
            let before = substring(t.as_str(), 0, i);
            let after = substring(t.as_str(), i + 1, n);
            assert(before@ =~= t@.take(i as int));
            assert(after@ =~= t@.skip(i + 1));
            let key = trim_matches(before.as_str(), &blanks);
            if key.as_str().unicode_len() == 0 {
                LineKind::Bad
            } else {
                LineKind::Entry(key, trim_matches(after.as_str(), &blanks))
            }
        },
        None => LineKind::Bad,
    }
}

/// The reader of unit files.
pub struct UnitParser;

impl UnitParser {
    /// The properties of a unit file, in order; or the index of its first bad
    /// line.
    pub fn parse(text: &str) -> (r: Result<Vec<UnitProperty>, usize>)
        ensures
            match parse_unit(text@) {
                Ok(props) => r matches Ok(v) && property_views(v@) == props,
                Err(i) => r matches Err(j) && j == i,
            },
    {
        let lines = split(text, '\n');
        let ghost ls = split_chars(text@, '\n');
        let mut section = String::new();
        let mut props: Vec<UnitProperty> = Vec::new();
        let mut i: usize = 0;
        assert(ls.take(0) =~= Seq::<Seq<char>>::empty());
        assert(property_views(props@) =~= Seq::<PropertyView>::empty());
        while i < lines.len()
            invariant
                string_views(lines@) == ls,
                ls == split_chars(text@, '\n'),
                i <= ls.len(),
                parse_lines(ls.take(i as int)) == Ok::<(Seq<char>, Seq<PropertyView>), int>(
                    (section@, property_views(props@)),
                ),
            decreases ls.len() - i,
        {
            assert(ls.take(i + 1).drop_last() =~= ls.take(i as int));
            assert(ls.take(i + 1).last() == ls[i as int]);
            assert(lines@[i as int]@ == ls[i as int]);
            match read_line(lines[i].as_str()) {
                LineKind::Skip => {},
                LineKind::Header(name) => {
                    section = name;
                },
                LineKind::Entry(key, value) => {
                    let s = section.clone();
                    let ghost before = property_views(props@);
                    props.push(UnitProperty { section: s, key, value });
                    assert(property_views(props@) =~= before.push(props@.last().view()));
                },
                LineKind::Bad => {
                    proof {
                        assert(line_view(ls[i as int]) == LineView::Bad);
                        assert(parse_lines(ls.take(i + 1)) == Err::<(Seq<char>, Seq<PropertyView>), int>(
                            i as int,
                        ));
                        lemma_parse_lines_err(ls, i + 1);
                    }
                    return Err(i);
                },
            }
            i = i + 1;
        }
        assert(ls.take(i as int) =~= ls);
        Ok(props)
    }
}

/// The values of a key in a section, in the order they were set.
pub open spec fn values_of(props: Seq<PropertyView>, section: Seq<char>, key: Seq<char>) -> Seq<
    Seq<char>,
>
    decreases props.len(),
{
    if props.len() == 0 {
        Seq::empty()
    } else {
        let r = values_of(props.drop_last(), section, key);
        let p = props.last();
        if p.section == section && p.key == key {
            r.push(p.value)
        } else {
            r
        }
    }
}

/// Some property was set in the section.
pub open spec fn has_section(props: Seq<PropertyView>, section: Seq<char>) -> bool {
    exists|i: int| 0 <= i < props.len() && #[trigger] props[i].section == section
}

fn values_in(props: &Vec<UnitProperty>, section: &str, key: &str) -> (r: Vec<String>)
    ensures
        string_views(r@) == values_of(property_views(props@), section@, key@),
{
    let ghost ps = property_views(props@);
    let mut r: Vec<String> = Vec::new();
    let mut i: usize = 0;
    assert(ps.take(0) =~= Seq::<PropertyView>::empty());
    assert(string_views(r@) =~= Seq::<Seq<char>>::empty());
    while i < props.len()
        invariant
            ps == property_views(props@),
            i <= ps.len(),
            string_views(r@) == values_of(ps.take(i as int), section@, key@),
        decreases ps.len() - i,
    {
        assert(ps.take(i + 1).drop_last() =~= ps.take(i as int));
        assert(ps.take(i + 1).last() == props@[i as int].view());
        let p = &props[i];
        if str_eq(p.section.as_str(), section) && str_eq(p.key.as_str(), key) {
            let ghost before = string_views(r@);
            r.push(p.value.clone());
            assert(string_views(r@) =~= before.push(p.value@));
        }
        i = i + 1;
    }
    assert(ps.take(i as int) =~= ps);
    r
}

fn section_in(props: &Vec<UnitProperty>, section: &str) -> (r: bool)
    ensures
        r == has_section(property_views(props@), section@),
{
    let ghost ps = property_views(props@);
    let mut i: usize = 0;
    while i < props.len()
        invariant
            ps == property_views(props@),
            i <= ps.len(),
            forall|j: int| 0 <= j < i ==> ps[j].section != section@,
        decreases ps.len() - i,
    {
        if str_eq(props[i].section.as_str(), section) {
            assert(ps[i as int].section == section@);
            return true;
        }
        i = i + 1;
    }
    false
}

/// The characters that may prefix the path of an executed command.
pub open spec fn exec_prefixes() -> Seq<char> {
    seq!['@', '!', ':', '+', '-']
}

/// The path of the program that a command line runs: its first word without
/// the prefixes that change how systemd runs it.
pub open spec fn exec_path_of(command: Seq<char>) -> Seq<char> {
    trim_start_chars(split_chars(command, ' ')[0], exec_prefixes())
}

/// The path of the program that a command line runs.
pub fn cmd_exec_path(command: &str) -> (r: String)
    ensures
        r@ == exec_path_of(command@),
{
    let words = split(command, ' ');
    proof {
        crate::text::lemma_split_chars_nonempty(command@, ' ');
        assert(words@[0]@ == split_chars(command@, ' ')[0]);
    }
    let prefixes = ['@', '!', ':', '+', '-'];
    assert(prefixes@ =~= exec_prefixes());
    trim_start_matches(words[0].as_str(), &prefixes)
}

/// The suffix of slice units.
pub open spec fn slice_suffix() -> Seq<char> {
    seq!['.', 's', 'l', 'i', 'c', 'e']
}

/// The words that are not slice units, in order.
pub open spec fn keep_required(words: Seq<Seq<char>>) -> Seq<Seq<char>>
    decreases words.len(),
{
    if words.len() == 0 {
        Seq::empty()
    } else {
        let r = keep_required(words.drop_last());
        if ends_with_chars(words.last(), slice_suffix()) {
            r
        } else {
            r.push(words.last())
        }
    }
}

/// The units that a `Requires=` value names, slice units left out.
pub open spec fn required_units(value: Seq<char>) -> Seq<Seq<char>> {
    keep_required(split_chars(value, ' '))
}

fn required_in(value: &str) -> (r: Vec<String>)
    ensures
        string_views(r@) == required_units(value@),
{
    let words = split(value, ' ');
    let ghost ws = split_chars(value@, ' ');
    let mut r: Vec<String> = Vec::new();
    let mut i: usize = 0;
    assert(ws.take(0) =~= Seq::<Seq<char>>::empty());
    assert(string_views(r@) =~= Seq::<Seq<char>>::empty());
    while i < words.len()
        invariant
            string_views(words@) == ws,
            i <= ws.len(),
            string_views(r@) == keep_required(ws.take(i as int)),
        decreases ws.len() - i,
    {
        assert(ws.take(i + 1).drop_last() =~= ws.take(i as int));
        assert(ws.take(i + 1).last() == words@[i as int]@);
        if !ends_with(words[i].as_str(), ".slice") {
            proof {
                reveal_strlit(".slice");
                assert(".slice"@ =~= slice_suffix());
            }
            let ghost before = string_views(r@);
            r.push(words[i].clone());
            assert(string_views(r@) =~= before.push(words@[i as int]@));
        } else {
            proof {
                reveal_strlit(".slice");
                assert(".slice"@ =~= slice_suffix());
            }
        }
        i = i + 1;
    }
    assert(ws.take(i as int) =~= ws);
    r
}

/// The name of the section of a service's properties.
pub open spec fn service_section() -> Seq<char> {
    seq!['S', 'e', 'r', 'v', 'i', 'c', 'e']
}

/// The key of the commands that start a service.
pub open spec fn exec_start_key() -> Seq<char> {
    seq!['E', 'x', 'e', 'c', 'S', 't', 'a', 'r', 't']
}

/// The name of the section of a unit's generic properties.
pub open spec fn unit_section() -> Seq<char> {
    seq!['U', 'n', 'i', 't']
}

/// The key of the units that a unit requires.
pub open spec fn requires_key() -> Seq<char> {
    seq!['R', 'e', 'q', 'u', 'i', 'r', 'e', 's']
}

/// The programs that a unit runs: those of its `ExecStart=` commands, for a
/// service.
pub open spec fn binaries_of(props: Seq<PropertyView>) -> Seq<Seq<char>> {
    if has_section(props, service_section()) {
        values_of(props, service_section(), exec_start_key()).map_values(
            |c: Seq<char>| exec_path_of(c),
        )
    } else {
        Seq::empty()
    }
}

/// The units that the `Requires=` values name, in order, slice units left
/// out.
pub open spec fn all_required(values: Seq<Seq<char>>) -> Seq<Seq<char>>
    decreases values.len(),
{
    if values.len() == 0 {
        Seq::empty()
    } else {
        all_required(values.drop_last()) + required_units(values.last())
    }
}

proof fn lemma_keep_required_no_slice(words: Seq<Seq<char>>)
    ensures
        forall|k: int|
            0 <= k < keep_required(words).len() ==> !ends_with_chars(
                #[trigger] keep_required(words)[k],
                seq!['.', 's', 'l', 'i', 'c', 'e'],
            ),
    decreases words.len(),
{
    if words.len() > 0 {
        lemma_keep_required_no_slice(words.drop_last());
        let r = keep_required(words.drop_last());
        assert(slice_suffix() =~= seq!['.', 's', 'l', 'i', 'c', 'e']);
        assert forall|k: int| 0 <= k < keep_required(words).len() implies !ends_with_chars(
            #[trigger] keep_required(words)[k],
            seq!['.', 's', 'l', 'i', 'c', 'e'],
        ) by {
            if k < r.len() {
                assert(keep_required(words)[k] == r[k]);
            }
        }
    }
}

/// The units that `Requires=` values name: every value counts, in order (the
/// names of two runs of values are those of the first, then those of the
/// second), and no required unit is a slice unit.
pub proof fn lemma_required_units_laws(a: Seq<Seq<char>>, b: Seq<Seq<char>>, v: Seq<char>)
    ensures
        all_required(a + b) == all_required(a) + all_required(b),
        all_required(seq![v]) == required_units(v),
        forall|k: int|
            0 <= k < all_required(a).len() ==> !ends_with_chars(
                #[trigger] all_required(a)[k],
                seq!['.', 's', 'l', 'i', 'c', 'e'],
            ),
    decreases b.len(),
{
    if b.len() > 0 {
        lemma_required_units_laws(a, b.drop_last(), v);
        assert((a + b).drop_last() =~= a + b.drop_last());
        assert((a + b).last() == b.last());
        assert(all_required(a + b) =~= all_required(a) + all_required(b));
    } else {
        assert(a + b =~= a);
        assert(all_required(b) =~= Seq::<Seq<char>>::empty());
        assert(all_required(a + b) =~= all_required(a) + all_required(b));
    }
    assert(seq![v].drop_last() =~= Seq::<Seq<char>>::empty());
    assert(all_required(Seq::<Seq<char>>::empty()) =~= Seq::<Seq<char>>::empty());
    assert(seq![v].last() == v);
    assert(all_required(seq![v]) =~= required_units(v));
    lemma_all_required_no_slice(a);
}

proof fn lemma_all_required_no_slice(a: Seq<Seq<char>>)
    ensures
        forall|k: int|
            0 <= k < all_required(a).len() ==> !ends_with_chars(
                #[trigger] all_required(a)[k],
                seq!['.', 's', 'l', 'i', 'c', 'e'],
            ),
    decreases a.len(),
{
    if a.len() > 0 {
        lemma_all_required_no_slice(a.drop_last());
        let r = all_required(a.drop_last());
        let t = required_units(a.last());
        lemma_keep_required_no_slice(split_chars(a.last(), ' '));
        assert forall|k: int| 0 <= k < all_required(a).len() implies !ends_with_chars(
            #[trigger] all_required(a)[k],
            seq!['.', 's', 'l', 'i', 'c', 'e'],
        ) by {
            if k < r.len() {
                assert(all_required(a)[k] == r[k]);
            } else {
                assert(all_required(a)[k] == t[k - r.len()]);
            }
        }
    }
}

/// The units that a unit requires: those named by each of its `Requires=`
/// values, in order, slice units left out.
pub open spec fn dependencies_of(props: Seq<PropertyView>) -> Seq<Seq<char>> {
    all_required(values_of(props, unit_section(), requires_key()))
}

/// The extensions of units that are installed in the target directories.
pub open spec fn is_target_unit_extension(e: Seq<u8>) -> bool {
    ||| e == seq![112u8, 97, 116, 104]
    ||| e == seq![115u8, 101, 114, 118, 105, 99, 101]
    ||| e == seq![116u8, 97, 114, 103, 101, 116]
}

/// The extension of socket units.
pub open spec fn is_socket_unit_extension(e: Seq<u8>) -> bool {
    e == seq![115u8, 111, 99, 107, 101, 116]
}

/// The directories where a unit at `path` may be installed, by its extension.
pub open spec fn install_dirs(path: PathView) -> Seq<PathView> {
    match extension_of(path) {
        Some(e) => if is_target_unit_extension(e) {
            unit_install_paths()
        } else if is_socket_unit_extension(e) {
            socket_install_paths()
        } else {
            Seq::empty()
        },
        None => Seq::empty(),
    }
}

/// Where a unit is installed, by the extension of its file name: a `.path`,
/// `.service` or `.target` unit in the `wants` directories of
/// `initrd.target`, `initrd-root-device.target`, `initrd-root-fs.target` and
/// `sysinit.target`, in that order; a `.socket` unit in those of
/// `sockets.target`; any other unit nowhere.
pub proof fn lemma_install_dirs_by_extension(path: PathView)
    ensures
        ({
            let e = extension_of(path);
            e == Some(seq![112u8, 97, 116, 104]) || e == Some(seq![115u8, 101, 114, 118, 105, 99, 101])
                || e == Some(seq![116u8, 97, 114, 103, 101, 116])
        }) ==> install_dirs(path) == seq![
            PathView { absolute: true, components: seq![seq![117u8, 115, 114], seq![108u8, 105, 98], seq![115u8, 121, 115, 116, 101, 109, 100], seq![115u8, 121, 115, 116, 101, 109], seq![105u8, 110, 105, 116, 114, 100, 46, 116, 97, 114, 103, 101, 116, 46, 119, 97, 110, 116, 115]] },
            PathView { absolute: true, components: seq![seq![117u8, 115, 114], seq![108u8, 105, 98], seq![115u8, 121, 115, 116, 101, 109, 100], seq![115u8, 121, 115, 116, 101, 109], seq![105u8, 110, 105, 116, 114, 100, 45, 114, 111, 111, 116, 45, 100, 101, 118, 105, 99, 101, 46, 116, 97, 114, 103, 101, 116, 46, 119, 97, 110, 116, 115]] },
            PathView { absolute: true, components: seq![seq![117u8, 115, 114], seq![108u8, 105, 98], seq![115u8, 121, 115, 116, 101, 109, 100], seq![115u8, 121, 115, 116, 101, 109], seq![105u8, 110, 105, 116, 114, 100, 45, 114, 111, 111, 116, 45, 102, 115, 46, 116, 97, 114, 103, 101, 116, 46, 119, 97, 110, 116, 115]] },
            PathView { absolute: true, components: seq![seq![117u8, 115, 114], seq![108u8, 105, 98], seq![115u8, 121, 115, 116, 101, 109, 100], seq![115u8, 121, 115, 116, 101, 109], seq![115u8, 121, 115, 105, 110, 105, 116, 46, 116, 97, 114, 103, 101, 116, 46, 119, 97, 110, 116, 115]] },
        ],
        extension_of(path) == Some(seq![115u8, 111, 99, 107, 101, 116]) ==> install_dirs(path) == seq![
            PathView { absolute: true, components: seq![seq![117u8, 115, 114], seq![108u8, 105, 98], seq![115u8, 121, 115, 116, 101, 109, 100], seq![115u8, 121, 115, 116, 101, 109], seq![115u8, 111, 99, 107, 101, 116, 115, 46, 116, 97, 114, 103, 101, 116, 46, 119, 97, 110, 116, 115]] },
        ],
        ({
            let e = extension_of(path);
            e != Some(seq![112u8, 97, 116, 104]) && e != Some(seq![115u8, 101, 114, 118, 105, 99, 101])
                && e != Some(seq![116u8, 97, 114, 103, 101, 116]) && e != Some(seq![115u8, 111, 99, 107, 101, 116])
        }) ==> install_dirs(path).len() == 0,
{
}

fn install_dirs_exec(path: &VfsPath) -> (r: Vec<VfsPath>)
    ensures
        path_views(r@) == install_dirs(path@),
{
    match path.extension() {
        Some(e) => {
            let p = [112u8, 97, 116, 104];
            let v = [115u8, 101, 114, 118, 105, 99, 101];
            let t = [116u8, 97, 114, 103, 101, 116];
            let k = [115u8, 111, 99, 107, 101, 116];
            assert(p@ =~= seq![112u8, 97, 116, 104]);
            assert(v@ =~= seq![115u8, 101, 114, 118, 105, 99, 101]);
            assert(t@ =~= seq![116u8, 97, 114, 103, 101, 116]);
            assert(k@ =~= seq![115u8, 111, 99, 107, 101, 116]);
            if same_bytes(e.as_slice(), &p) || same_bytes(e.as_slice(), &v) || same_bytes(
                e.as_slice(),
                &t,
            ) {
                unit_install_paths_exec()
            } else if same_bytes(e.as_slice(), &k) {
                socket_install_paths_exec()
            } else {
                let r: Vec<VfsPath> = Vec::new();
                assert(path_views(r@) =~= Seq::<PathView>::empty());
                r
            }
        },
        None => {
            let r: Vec<VfsPath> = Vec::new();
            assert(path_views(r@) =~= Seq::<PathView>::empty());
            r
        },
    }
}

fn same_bytes(a: &[u8], b: &[u8]) -> (r: bool)
    ensures
        r == (a@ == b@),
{
    match crate::order::compare_bytes(a, b) {
        crate::order::Cmp::Equal => true,
        _ => false,
    }
}

/// The path of a unit's name.
pub open spec fn unit_name_path(name: Seq<char>) -> PathView {
    parse_path(encode_utf8(name))
}

/// Type representing a systemd unit (service, socket, path, target, ...).
#[derive(Debug)]
pub struct Unit {
    /// The path of the unit in the filesystem.
    pub path: VfsPath,
    /// The raw bytes of the unit file.
    pub data: Vec<u8>,
    /// The binaries required by this unit (non-empty if service, empty otherwise).
    pub binaries: Vec<String>,
    /// The dependencies of this unit file (Requires=).
    pub dependencies: Vec<String>,
    /// The path where a symlink should be created for installation.
    pub install_path: Option<VfsPath>,
}

/// What reading the unit `name` found at `path` with the contents `text`
/// gives, where `probe` tells which paths exist.
pub open spec fn unit_result<F: Fn(&VfsPath) -> bool>(
    probe: F,
    name: Seq<char>,
    path: PathView,
    text: Seq<char>,
    r: Result<Unit, UnitError>,
) -> bool {
    match parse_unit(text) {
        Err(i) => r matches Err(UnitError::Parse(j)) && j == i,
        Ok(props) => if has_section(props, service_section()) && values_of(
            props,
            service_section(),
            exec_start_key(),
        ).len() == 0 {
            r matches Err(UnitError::MissingExecStart)
        } else if !has_section(props, unit_section()) {
            r matches Err(UnitError::MissingUnitSection)
        } else {
            &&& r matches Ok(u)
            &&& r->Ok_0.path@ == path
            &&& r->Ok_0.data@ == encode_utf8(text)
            &&& string_views(r->Ok_0.binaries@) == binaries_of(props)
            &&& string_views(r->Ok_0.dependencies@) == dependencies_of(props)
            &&& match r->Ok_0.install_path {
                Some(p) => found_first(probe, install_dirs(path), unit_name_path(name), p@),
                None => found_nowhere(probe, install_dirs(path), unit_name_path(name)),
            }
        },
    }
}

impl Unit {
    /// Search for a unit with the given name (e.g. `systemd-journald.service`):
    /// the first place where `probe` says it exists.
    pub fn find_unit<F: Fn(&VfsPath) -> bool>(name: &VfsPath, probe: &F) -> (r: Result<
        VfsPath,
        UnitError,
    >)
        requires
            forall|q: &VfsPath| #[trigger] probe.requires((q,)),
        ensures
            r matches Ok(p) ==> found_first(*probe, unit_search_paths(), name@, p@),
            r matches Err(e) ==> e matches UnitError::UnitNotFound(q) && q@ == name@
                && found_nowhere(*probe, unit_search_paths(), name@),
    {
        let dirs = unit_search_paths_exec();
        match search_paths(name, &dirs, probe) {
            Some(p) => Ok(p),
            None => Err(UnitError::UnitNotFound(name.duplicate())),
        }
    }

    /// Search and read the unit with the given name: `probe` tells which
    /// paths exist and `read` gives the contents of a file.
    pub fn from_name<F: Fn(&VfsPath) -> bool, R: Fn(&VfsPath) -> Result<String, std::io::Error>>(
        name: &str,
        probe: &F,
        read: &R,
    ) -> (r: Result<Unit, UnitError>)
        requires
            forall|q: &VfsPath| #[trigger] probe.requires((q,)),
            forall|q: &VfsPath| #[trigger] read.requires((q,)),
        ensures
            r matches Err(UnitError::UnitNotFound(q)) ==> q@ == unit_name_path(name@) && found_nowhere(
                *probe,
                unit_search_paths(),
                unit_name_path(name@),
            ),
            r matches Err(UnitError::InputOutput(_)) ==> exists|p: VfsPath, e: std::io::Error|
                #[trigger] found_first(*probe, unit_search_paths(), unit_name_path(name@), p@)
                    && #[trigger] read.ensures((&p,), Err::<String, std::io::Error>(e)),
            !(r matches Err(UnitError::UnitNotFound(_))) && !(r matches Err(UnitError::InputOutput(_)))
                ==> exists|p: VfsPath, text: String|
                found_first(*probe, unit_search_paths(), unit_name_path(name@), p@) && read.ensures(
                    (&p,),
                    Ok::<String, std::io::Error>(text),
                ) && #[trigger] unit_result(*probe, name@, p@, text@, r),
    {
        let unit_name = VfsPath::from_bytes(name.as_bytes());
        let path = match Unit::find_unit(&unit_name, probe) {
            Ok(p) => p,
            Err(e) => {
                return Err(e);
            },
        };
        let text = match read(&path) {
            Ok(t) => t,
            Err(e) => {
                assert(found_first(*probe, unit_search_paths(), unit_name_path(name@), path@));
                return Err(UnitError::InputOutput(e));
            },
        };
        let ghost p0 = path;
        let ghost t0 = text;
        let r = Unit::from_contents(name, path, text, probe);
        assert(unit_result(*probe, name@, p0@, t0@, r));
        r
    }

    /// The unit `name` found at `path`, from the contents of its file.
    pub fn from_contents<F: Fn(&VfsPath) -> bool>(
        name: &str,
        path: VfsPath,
        text: String,
        probe: &F,
    ) -> (r: Result<Unit, UnitError>)
        requires
            forall|q: &VfsPath| #[trigger] probe.requires((q,)),
        ensures
            unit_result(*probe, name@, path@, text@, r),
    {
        let props = match UnitParser::parse(text.as_str()) {
            Ok(props) => props,
            Err(i) => {
                return Err(UnitError::Parse(i));
            },
        };
        let ghost ps = property_views(props@);
        proof {
            reveal_strlit("Service");
            reveal_strlit("ExecStart");
            reveal_strlit("Unit");
            reveal_strlit("Requires");
            assert("Service"@ =~= service_section());
            assert("ExecStart"@ =~= exec_start_key());
            assert("Unit"@ =~= unit_section());
            assert("Requires"@ =~= requires_key());
        }
        let mut binaries: Vec<String> = Vec::new();
        if section_in(&props, "Service") {
            let commands = values_in(&props, "Service", "ExecStart");
            if commands.len() == 0 {
                return Err(UnitError::MissingExecStart);
            }
            let ghost cs = string_views(commands@);
            let mut i: usize = 0;
            while i < commands.len()
                invariant
                    cs == string_views(commands@),
                    i <= cs.len(),
                    string_views(binaries@) == cs.take(i as int).map_values(
                        |c: Seq<char>| exec_path_of(c),
                    ),
                decreases cs.len() - i,
            {
                let ghost before = string_views(binaries@);
                binaries.push(cmd_exec_path(commands[i].as_str()));
                assert(string_views(binaries@) =~= cs.take(i + 1).map_values(
                    |c: Seq<char>| exec_path_of(c),
                )) by {
                    assert(cs.take(i + 1) =~= cs.take(i as int).push(cs[i as int]));
                    assert(string_views(binaries@) =~= before.push(binaries@.last()@));
                }
                i = i + 1;
            }
            assert(cs.take(i as int) =~= cs);
        } else {
            assert(string_views(binaries@) =~= Seq::<Seq<char>>::empty());
        }
        if !section_in(&props, "Unit") {
            return Err(UnitError::MissingUnitSection);
        }
        let required = values_in(&props, "Unit", "Requires");
        let ghost rs = string_views(required@);
        let mut dependencies: Vec<String> = Vec::new();
        let mut i: usize = 0;
        assert(rs.take(0) =~= Seq::<Seq<char>>::empty());
        assert(string_views(dependencies@) =~= Seq::<Seq<char>>::empty());
        while i < required.len()
            invariant
                rs == string_views(required@),
                i <= rs.len(),
                string_views(dependencies@) == all_required(rs.take(i as int)),
            decreases rs.len() - i,
        {
            let ghost before = dependencies@;
            let mut more = required_in(required[i].as_str());
            let ghost added = more@;
            dependencies.append(&mut more);
            assert(rs.take(i + 1).drop_last() =~= rs.take(i as int));
            assert(rs.take(i + 1).last() == required@[i as int]@);
            assert(string_views(dependencies@) =~= string_views(before) + string_views(added)) by {
                assert(dependencies@ =~= before + added);
            }
            i = i + 1;
        }
        assert(rs.take(i as int) =~= rs);
        let dirs = install_dirs_exec(&path);
        let unit_name = VfsPath::from_bytes(name.as_bytes());
        let install_path = search_paths(&unit_name, &dirs, probe);
        let data = vstd::slice::slice_to_vec(text.as_str().as_bytes());
        Ok(Unit { path, data, binaries, dependencies, install_path })
    }
}

} // verus!
