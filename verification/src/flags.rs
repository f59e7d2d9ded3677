//! The device record, where its files live, and how it is read from the
//! system property file and the one-line device files.

use vstd::prelude::*;
use vstd::string::*;

use crate::text::{
    is_white_space, lemma_first_index, lemma_first_index_at, lemma_trim, lemma_trim_end_at,
    lemma_trim_end_shape, lemma_trim_of_trim_end, lemma_trim_start_at, lemma_trim_start_shape,
    lemma_file_lines_first, lemma_file_lines_single,
};
use crate::text::{chars_of, file_lines, lemma_file_lines_append, find_char, first_index, split_file_lines, substring, trim, trim_bounds, views};

verus! {

/// Property that names the device model in the system property file.
pub const MODEL_PROPERTY: &'static str = "ro.vendor.xlp.rom.helper.device";

/// Property that holds the build fingerprint in the system property file.
pub const FINGERPRINT_PROPERTY: &'static str = "ro.system.build.fingerprint";

/// The operating systems that have their own file locations.
pub enum TargetOs {
    MacOs,
    Android,
    Other,
}

/// Where the service finds and keeps its files.
pub struct UseFilePath {
    pub build_prop: &'static str,
    pub board_id: &'static str,
    pub chip_name: &'static str,
    pub data_binary: &'static str,
    pub log_file: &'static str,
}

impl UseFilePath {
    /// The file locations used on `os`.
    pub fn for_target(os: TargetOs) -> (r: UseFilePath)
        ensures
            os is MacOs ==> r.build_prop@ == "/Users/pp/CLionProjects/verix-rs/test/build.prop"@
                && r.board_id@ == "/Users/pp/CLionProjects/verix-rs/test/serial_number"@
                && r.chip_name@ == "/Users/pp/CLionProjects/verix-rs/test/chip_name"@
                && r.data_binary@ == "/Users/pp/CLionProjects/verix-rs/test/test.bin"@
                && r.log_file@ == "/Users/pp/CLionProjects/verix-rs/test/log.txt"@,
            os is Android ==> r.build_prop@ == "/odm/etc/build.prop"@ && r.board_id@
                == "/sys/devices/soc0/serial_number"@ && r.chip_name@
                == "/sys/devices/soc0/chip_name"@ && r.data_binary@ == "/data/system/battery"@
                && r.log_file@ == "/data/system/log.txt"@,
            os is Other ==> r.build_prop@ == "test/build.prop"@ && r.board_id@
                == "test/serial_number"@ && r.chip_name@ == "test/chip_name"@ && r.data_binary@
                == "test/test.bin"@ && r.log_file@ == "test/log.txt"@,
    {
        match os {
            TargetOs::MacOs => UseFilePath {
                build_prop: "/Users/pp/CLionProjects/verix-rs/test/build.prop",
                board_id: "/Users/pp/CLionProjects/verix-rs/test/serial_number",
                chip_name: "/Users/pp/CLionProjects/verix-rs/test/chip_name",
                data_binary: "/Users/pp/CLionProjects/verix-rs/test/test.bin",
                log_file: "/Users/pp/CLionProjects/verix-rs/test/log.txt",
            },
            TargetOs::Android => UseFilePath {
                build_prop: "/odm/etc/build.prop",
                board_id: "/sys/devices/soc0/serial_number",
                chip_name: "/sys/devices/soc0/chip_name",
                data_binary: "/data/system/battery",
                log_file: "/data/system/log.txt",
            },
            TargetOs::Other => UseFilePath {
                build_prop: "test/build.prop",
                board_id: "test/serial_number",
                chip_name: "test/chip_name",
                data_binary: "test/test.bin",
                log_file: "test/log.txt",
            },
        }
    }
}

/// The device record: identity read from the device, and the state of its
/// verification.
#[derive(Debug)]
pub struct PhoneVar {
    pub board_id: String,
    pub phone_model: String,
    pub chip_name: String,
    pub finger: String,
    pub verify_status: bool,
    pub check_time: u64,
    pub install_time: u64,
}

impl Clone for PhoneVar {
    fn clone(&self) -> (r: Self)
        ensures
            r == *self,
    {
        PhoneVar {
            board_id: self.board_id.clone(),
            phone_model: self.phone_model.clone(),
            chip_name: self.chip_name.clone(),
            finger: self.finger.clone(),
            verify_status: self.verify_status,
            check_time: self.check_time,
            install_time: self.install_time,
        }
    }
}

impl Default for PhoneVar {
    fn default() -> (r: Self)
        ensures
            r.board_id@ == Seq::<char>::empty(),
            r.phone_model@ == Seq::<char>::empty(),
            r.chip_name@ == Seq::<char>::empty(),
            r.finger@ == Seq::<char>::empty(),
            !r.verify_status,
            r.check_time == 0,
            r.install_time == 0,
    {
        PhoneVar {
            board_id: String::new(),
            phone_model: String::new(),
            chip_name: String::new(),
            finger: String::new(),
            verify_status: false,
            check_time: 0,
            install_time: 0,
        }
    }
}

/// The first line of a one-line device file, or nothing when the file could
/// not be read (`None`) or has no line.
pub open spec fn first_line(content: Option<Seq<char>>) -> Seq<char> {
    match content {
        Some(c) => if file_lines(c).len() > 0 {
            file_lines(c)[0]
        } else {
            Seq::empty()
        },
        None => Seq::empty(),
    }
}

/// The key and value that a line of the property file sets, if any: the
/// line trimmed, split at its first `=`, both sides trimmed.
pub open spec fn prop_entry(line: Seq<char>) -> Option<(Seq<char>, Seq<char>)> {
    let t = trim(line);
    let n = first_index(t, '=') as int;
    if n < t.len() {
        Some((trim(t.take(n)), trim(t.skip(n + 1))))
    } else {
        None
    }
}

/// `m` after the settings of `lines`, in order, a later one replacing an
/// earlier one with the same key.
pub open spec fn apply_prop_lines(
    m: Map<Seq<char>, Seq<char>>,
    lines: Seq<Seq<char>>,
) -> Map<Seq<char>, Seq<char>>
    decreases lines.len(),
{
    if lines.len() == 0 {
        m
    } else {
        let next = match prop_entry(lines[0]) {
            Some(e) => m.insert(e.0, e.1),
            None => m,
        };
        apply_prop_lines(next, lines.drop_first())
    }
}

/// The first line of a device file is the text up to its first line feed
/// (less a carriage return right before it), or the whole text when it has
/// no line feed; nothing when the file could not be read.
pub proof fn lemma_first_line(l: Seq<char>, ending: Seq<char>, rest: Seq<char>)
    requires
        forall|i: int| 0 <= i < l.len() ==> #[trigger] l[i] != '\n',
        ending == seq!['\n'] || ending == seq!['\r', '\n'],
        ending == seq!['\n'] ==> l.len() == 0 || l.last() != '\r',
    ensures
        first_line(Some(l + ending + rest)) == l,
        first_line(Some(l)) == l,
        first_line(None) == Seq::<char>::empty(),
{
    lemma_file_lines_first(l, ending, rest);
    lemma_file_lines_single(l);
}

/// Reading no lines changes nothing.
pub proof fn lemma_apply_no_lines(m: Map<Seq<char>, Seq<char>>)
    ensures
        apply_prop_lines(m, Seq::empty()) == m,
{
}

/// A line `k=v` whose key part holds no `=` sets the trimmed key to the
/// trimmed value, whatever white space surrounds either.
pub proof fn lemma_prop_entry_sets(k: Seq<char>, v: Seq<char>)
    requires
        forall|i: int| 0 <= i < k.len() ==> #[trigger] k[i] != '=',
    ensures
        prop_entry(k + seq!['='] + v) == Some((trim(k), trim(v))),
{
    let s = k + seq!['='] + v;
    assert(!is_white_space('='));
    let i = lemma_trim_start_shape(k);
    assert forall|j: int| 0 <= j < i implies is_white_space(#[trigger] s[j]) by {
        assert(s[j] == k[j]);
    }
    if i < k.len() {
        assert(s[i] == k[i]);
    } else {
        assert(s[i] == '=');
    }
    lemma_trim_start_at(s, i);
    let a = k.skip(i) + seq!['='];
    assert(s.skip(i) =~= a + v);
    let jv = lemma_trim_end_shape(v);
    let av = a + v;
    let e = a.len() + jv;
    assert forall|x: int| e <= x < av.len() implies is_white_space(#[trigger] av[x]) by {
        assert(av[x] == v[x - a.len()]);
    }
    if jv > 0 {
        assert(av[e - 1] == v[jv - 1]);
    } else {
        assert(av[e - 1] == '=');
    }
    lemma_trim_end_at(av, e);
    let t = av.take(e);
    assert(t == trim(s));
    let n = k.len() - i;
    assert forall|x: int| 0 <= x < n implies #[trigger] t[x] != '=' by {
        assert(t[x] == k[i + x]);
    }
    assert(t[n] == '=');
    lemma_first_index_at(t, '=', n);
    assert(t.take(n) =~= k.skip(i));
    assert(t.skip(n + 1) =~= v.take(jv));
    if i < k.len() {
        assert(k.skip(i)[0] == k[i]);
    }
    lemma_trim_start_at(k.skip(i), 0);
    assert(k.skip(i).skip(0) =~= k.skip(i));
    lemma_trim_of_trim_end(v);
}

/// A line without `=` sets nothing.
pub proof fn lemma_prop_entry_without_equals(line: Seq<char>)
    requires
        forall|i: int| 0 <= i < line.len() ==> #[trigger] line[i] != '=',
    ensures
        prop_entry(line) is None,
{
    let (a, b) = lemma_trim(line);
    let t = trim(line);
    assert forall|x: int| 0 <= x < t.len() implies #[trigger] t[x] != '=' by {
        assert(t[x] == line[a + x]);
    }
    lemma_first_index(t, '=');
    if first_index(t, '=') < t.len() {
        assert(t[first_index(t, '=') as int] == '=');
    }
}

/// One more line read after `lines`: a line that sets a key gives it its
/// value, whatever the earlier lines set; any other line changes nothing.
pub proof fn lemma_later_setting_wins(
    m: Map<Seq<char>, Seq<char>>,
    lines: Seq<Seq<char>>,
    line: Seq<char>,
)
    ensures
        apply_prop_lines(m, lines.push(line)) == match prop_entry(line) {
            Some(e) => apply_prop_lines(m, lines).insert(e.0, e.1),
            None => apply_prop_lines(m, lines),
        },
    decreases lines.len(),
{
    if lines.len() == 0 {
        assert(lines.push(line).drop_first() =~= Seq::<Seq<char>>::empty());
        assert(lines.push(line)[0] == line);
        reveal_with_fuel(apply_prop_lines, 2);
    } else {
        assert(lines.push(line)[0] == lines[0]);
        let next = match prop_entry(lines[0]) {
            Some(e) => m.insert(e.0, e.1),
            None => m,
        };
        assert(lines.push(line).drop_first() =~= lines.drop_first().push(line));
        lemma_later_setting_wins(next, lines.drop_first(), line);
    }
}

/// The properties that a property file with text `content` sets.
pub open spec fn build_prop_map(content: Seq<char>) -> Map<Seq<char>, Seq<char>> {
    apply_prop_lines(Map::empty(), file_lines(content))
}

/// `entries` holds each key of `m` once, with the value that `m` gives it,
/// and no other key.
spec fn entries_hold(entries: Seq<(String, String)>, m: Map<Seq<char>, Seq<char>>) -> bool {
    &&& forall|i: int, j: int|
        0 <= i < j < entries.len() ==> (#[trigger] entries[i]).0@ != (#[trigger] entries[j]).0@
    &&& forall|i: int|
        0 <= i < entries.len() ==> m.contains_key((#[trigger] entries[i]).0@) && m[entries[i].0@]
            == entries[i].1@
    &&& forall|k: Seq<char>|
        #[trigger] m.contains_key(k) ==> exists|i: int|
            0 <= i < entries.len() && (#[trigger] entries[i]).0@ == k
}

/// A property file read line by line to its end: after a complete text
/// (empty, or ending with a line feed), whatever it holds (blank lines
/// included), one more line sets its key, if it has one, on top of what the
/// text sets, and changes nothing else.
pub proof fn lemma_build_prop_map_append_line(a: Seq<char>, l: Seq<char>)
    requires
        a.len() == 0 || a.last() == '\n',
        l.len() > 0,
        forall|i: int| 0 <= i < l.len() ==> #[trigger] l[i] != '\n',
    ensures
        build_prop_map(a + l) == match prop_entry(l) {
            Some(e) => build_prop_map(a).insert(e.0, e.1),
            None => build_prop_map(a),
        },
{
    lemma_file_lines_append(a, l);
    lemma_later_setting_wins(Map::empty(), file_lines(a), l);
}

/// An empty property file sets nothing.
pub proof fn lemma_build_prop_map_empty()
    ensures
        build_prop_map(Seq::empty()) == Map::<Seq<char>, Seq<char>>::empty(),
{
    assert(file_lines(Seq::<char>::empty()) =~= Seq::<Seq<char>>::empty());
}

/// A map from property names to values.
pub struct PropMap {
    entries: Vec<(String, String)>,
    contents: Ghost<Map<Seq<char>, Seq<char>>>,
}

impl View for PropMap {
    type V = Map<Seq<char>, Seq<char>>;

    closed spec fn view(&self) -> Map<Seq<char>, Seq<char>> {
        self.contents@
    }
}

impl PropMap {
    /// Each key is held once, with the value that the map gives it.
    #[verifier::type_invariant]
    spec fn entries_match(&self) -> bool {
        entries_hold(self.entries@, self.contents@)
    }

    /// An empty map.
    pub fn new() -> (r: PropMap)
        ensures
            r@ == Map::<Seq<char>, Seq<char>>::empty(),
    {
        PropMap { entries: Vec::new(), contents: Ghost(Map::empty()) }
    }

    /// Position of `key` among the entries, if it is there.
    fn position(&self, key: &String) -> (r: Option<usize>)
        ensures
            match r {
                Some(i) => i < self.entries@.len() && self.entries@[i as int].0@ == key@,
                None => !self@.contains_key(key@),
            },
    {
        proof {
            use_type_invariant(self);
        }
        let mut i: usize = 0;
        while i < self.entries.len()
            invariant
                i <= self.entries@.len(),
                forall|j: int| 0 <= j < i ==> (#[trigger] self.entries@[j]).0@ != key@,
            decreases self.entries@.len() - i,
        {
            if self.entries[i].0 == *key {
                return Some(i);
            }
            i = i + 1;
        }
        None
    }

    /// The value of `key`, if the map has one.
    pub fn get(&self, key: &str) -> (r: Option<String>)
        ensures
            match r {
                Some(v) => self@.contains_key(key@) && v@ == self@[key@],
                None => !self@.contains_key(key@),
            },
    {
        proof {
            use_type_invariant(self);
        }
        let k = String::from_str(key);
        match self.position(&k) {
            Some(i) => Some(self.entries[i].1.clone()),
            None => None,
        }
    }

    /// Sets `key` to `value`, replacing any earlier value.
    pub fn insert(&mut self, key: String, value: String)
        ensures
            final(self)@ == old(self)@.insert(key@, value@),
    {
        proof {
            use_type_invariant(&*self);
        }
        let found = self.position(&key);
        let mut taken = PropMap::new();
        std::mem::swap(self, &mut taken);
        proof {
            use_type_invariant(&taken);
        }
        let PropMap { mut entries, contents } = taken;
        let ghost new_contents = contents@.insert(key@, value@);
        let ghost old_entries = entries@;
        assert(old_entries == old(self).entries@);
        assert(contents@ == old(self)@);
        match found {
            Some(i) => {
                entries.set(i, (key, value));
                proof {
                    assert(entries@ == old_entries.update(i as int, (key, value)));
                    assert forall|a: int, b: int|
                        0 <= a < b < entries@.len() implies (#[trigger] entries@[a]).0@
                        != (#[trigger] entries@[b]).0@ by {
                        assert(old_entries[a].0@ != old_entries[b].0@);
                    }
                    assert forall|a: int|
                        0 <= a < entries@.len() implies new_contents.contains_key(
                        (#[trigger] entries@[a]).0@) && new_contents[entries@[a].0@] == entries@[a].1@ by {
                        if a != i {
                            assert(old_entries[a].0@ != old_entries[i as int].0@);
                        }
                    }
                    assert forall|k: Seq<char>| #[trigger]
                        new_contents.contains_key(k) implies exists|j: int|
                        0 <= j < entries@.len() && (#[trigger] entries@[j]).0@ == k by {
                        if k != old_entries[i as int].0@ {
                            let j = choose|j: int|
                                0 <= j < old_entries.len() && (#[trigger] old_entries[j]).0@ == k;
                            assert(entries@[j] == old_entries[j]);
                        } else {
                            assert(entries@[i as int].0@ == k);
                        }
                    }
                }
            },
            None => {
                entries.push((key, value));
                proof {
                    let n = old_entries.len() as int;
                    assert(entries@[n].0@ == key@);
                    assert forall|a: int|
                        0 <= a < n implies #[trigger] old_entries[a].0@ != key@ by {
                        assert(contents@.contains_key(old_entries[a].0@));
                    }
                    assert forall|a: int, b: int|
                        0 <= a < b < entries@.len() implies (#[trigger] entries@[a]).0@
                        != (#[trigger] entries@[b]).0@ by {
                        if b < n {
                            assert(old_entries[a].0@ != old_entries[b].0@);
                        } else {
                            assert(entries@[a] == old_entries[a]);
                        }
                    }
                    assert forall|a: int|
                        0 <= a < entries@.len() implies new_contents.contains_key(
                        (#[trigger] entries@[a]).0@) && new_contents[entries@[a].0@] == entries@[a].1@ by {
                        if a < n {
                            assert(entries@[a] == old_entries[a]);
                        }
                    }
                    assert forall|k: Seq<char>| #[trigger]
                        new_contents.contains_key(k) implies exists|j: int|
                        0 <= j < entries@.len() && (#[trigger] entries@[j]).0@ == k by {
                        if k != key@ {
                            let j = choose|j: int|
                                0 <= j < old_entries.len() && (#[trigger] old_entries[j]).0@ == k;
                            assert(entries@[j] == old_entries[j]);
                        }
                    }
                }
            },
        }
        assert(entries_hold(entries@, new_contents));
        *self = PropMap { entries, contents: Ghost(new_contents) };
    }
}

impl PhoneVar {
    /// A record with the given fields.
    pub fn new(
        board_id: String,
        phone_model: String,
        chip_name: String,
        finger: String,
        verify_status: bool,
        check_time: u64,
        install_time: u64,
    ) -> (r: Self)
        ensures
            r.board_id == board_id,
            r.phone_model == phone_model,
            r.chip_name == chip_name,
            r.finger == finger,
            r.verify_status == verify_status,
            r.check_time == check_time,
            r.install_time == install_time,
    {
        Self { board_id, phone_model, chip_name, finger, verify_status, check_time, install_time }
    }

    /// The first line of a device file whose text is `content`, `None` when
    /// the file could not be read; empty when there is no such line.
    pub fn get_first_line(content: Option<&str>) -> (r: String)
        ensures
            r@ == first_line(
                match content {
                    Some(c) => Some(c@),
                    None => None,
                },
            ),
    {
        match content {
            Some(c) => {
                let lines = split_file_lines(c);
                if lines.len() > 0 {
                    proof {
                        assert(views(lines@)[0] == lines@[0]@);
                    }
                    lines[0].clone()
                } else {
                    String::new()
                }
            },
            None => String::new(),
        }
    }

    /// The value of property `prop_name`, or an empty text when it is not set.
    pub fn get_prop_value(prop_map: &PropMap, prop_name: &str) -> (r: String)
        ensures
            r@ == if prop_map@.contains_key(prop_name@) {
                prop_map@[prop_name@]
            } else {
                Seq::<char>::empty()
            },
    {
        match prop_map.get(prop_name) {
            Some(v) => v,
            None => String::new(),
        }
    }

    /// The properties of a property file whose text is `content`; empty when
    /// the file could not be read (`None`).
    pub fn prop_to_map(content: Option<&str>) -> (r: PropMap)
        ensures
            r@ == match content {
                Some(c) => build_prop_map(c@),
                None => Map::<Seq<char>, Seq<char>>::empty(),
            },
    {
        match content {
            Some(c) => parse_build_prop(c),
            None => PropMap::new(),
        }
    }
}

/// The key and value that a line of the property file sets, if any.
pub fn parse_prop_line(line: &str) -> (r: Option<(String, String)>)
    ensures
        match r {
            Some(e) => prop_entry(line@) == Some((e.0@, e.1@)),
            None => prop_entry(line@) is None,
        },
{
    let cs = chars_of(line);
    let len = cs.len();
    let (a, b) = trim_bounds(&cs, 0, len);
    let e = find_char(&cs, '=', a, b);
    proof {
        assert(cs@.subrange(0, len as int) =~= line@);
    }
    let ghost t = cs@.subrange(a as int, b as int);
    if e < b {
        let (ka, kb) = trim_bounds(&cs, a, e);
        let (va, vb) = trim_bounds(&cs, e + 1, b);
        let key = substring(line, ka, kb);
        let value = substring(line, va, vb);
        proof {
            assert(t.take(e - a) =~= cs@.subrange(a as int, e as int));
            assert(t.skip(e - a + 1) =~= cs@.subrange(e + 1, b as int));
        }
        Some((key, value))
    } else {
        None
    }
}

/// The properties that a property file with text `content` sets: each line
/// of the form `key=value`, white space around either side ignored, the last
/// setting of a key winning.
pub fn parse_build_prop(content: &str) -> (r: PropMap)
    ensures
        r@ == build_prop_map(content@),
{
    let lines = split_file_lines(content);
    let mut map = PropMap::new();
    let mut i: usize = 0;
    assert(views(lines@).skip(0) =~= views(lines@));
    while i < lines.len()
        invariant
            i <= lines@.len(),
            views(lines@) == file_lines(content@),
            apply_prop_lines(map@, views(lines@).skip(i as int)) == build_prop_map(content@),
        decreases lines@.len() - i,
    {
        let ghost m0 = map@;
        let ghost rest = views(lines@).skip(i as int);
        assert(rest[0] == lines@[i as int]@);
        assert(rest.drop_first() =~= views(lines@).skip(i + 1));
        match parse_prop_line(lines[i].as_str()) {
            Some(e) => {
                map.insert(e.0, e.1);
            },
            None => {},
        }
        i = i + 1;
    }
    map
}

/// A fresh device record: identity from the property file text `build_prop`
/// and the device files `board_id_file` and `chip_name_file` (each `None`
/// when it could not be read), not verified, never checked, installed at `now`.
pub fn init(
    build_prop: Option<&str>,
    board_id_file: Option<&str>,
    chip_name_file: Option<&str>,
    now: u64,
) -> (r: PhoneVar)
    ensures
        r.board_id@ == first_line(
            match board_id_file {
                Some(c) => Some(c@),
                None => None,
            },
        ),
        r.phone_model@ == ({
            let m = match build_prop {
                Some(c) => build_prop_map(c@),
                None => Map::<Seq<char>, Seq<char>>::empty(),
            };
            if m.contains_key(MODEL_PROPERTY@) {
                m[MODEL_PROPERTY@]
            } else {
                Seq::<char>::empty()
            }
        }),
        r.chip_name@ == first_line(
            match chip_name_file {
                Some(c) => Some(c@),
                None => None,
            },
        ),
        r.finger@ == ({
            let m = match build_prop {
                Some(c) => build_prop_map(c@),
                None => Map::<Seq<char>, Seq<char>>::empty(),
            };
            if m.contains_key(FINGERPRINT_PROPERTY@) {
                m[FINGERPRINT_PROPERTY@]
            } else {
                Seq::<char>::empty()
            }
        }),
        !r.verify_status,
        r.check_time == 0,
        r.install_time == now,
{
    let prop_content = PhoneVar::prop_to_map(build_prop);
    PhoneVar::new(
        PhoneVar::get_first_line(board_id_file),
        PhoneVar::get_prop_value(&prop_content, MODEL_PROPERTY),
        PhoneVar::get_first_line(chip_name_file),
        PhoneVar::get_prop_value(&prop_content, FINGERPRINT_PROPERTY),
        false,
        0,
        now,
    )
}

} // verus!
