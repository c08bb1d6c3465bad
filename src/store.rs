//! Record files: one per device and capture, named after the capture time,
//! the device and its model, and read back all together.

use crate::codec::{decode, decoded, encode, encoded, DecodeError};
use crate::container::{layout_bytes, parsed_layout, DataLayout};
use crate::model::{FieldModel, HistorySample, UPowerProperties};
use vstd::prelude::*;
use vstd::string::{StrSliceExecFns, StringExecFns};

verus! {

/// Why a record could not be written or read.
#[derive(PartialEq, Eq, Structural, Clone, Copy, Debug)]
pub enum StoreError {
    /// The file system refused the operation.
    Io,
    /// The file name derived for a record holds a path separator or a
    /// control character.
    InvalidName,
    /// A file does not hold a record container.
    Corrupt,
    /// A record's property blob is malformed.
    Malformed,
}

/// One decoded record: a device's properties and its history series.
#[derive(Clone, Debug, PartialEq, Eq)]
pub struct BatHistory {
    pub properties: UPowerProperties,
    pub data: Vec<HistorySample>,
}

impl View for BatHistory {
    type V = (Seq<FieldModel>, Seq<HistorySample>);

    open spec fn view(&self) -> (Seq<FieldModel>, Seq<HistorySample>) {
        (self.properties@, self.data@)
    }
}

/// A record file: its name and its contents.
#[derive(Clone, Debug, PartialEq, Eq)]
pub struct RecordFile {
    pub name: String,
    pub bytes: Vec<u8>,
}

impl View for RecordFile {
    type V = (Seq<char>, Seq<u8>);

    open spec fn view(&self) -> (Seq<char>, Seq<u8>) {
        (self.name@, self.bytes@)
    }
}

/// A character that may not stand in a file name: the path separator and
/// the control characters (U+0000 to U+001F and U+007F to U+009F).
pub open spec fn is_unsafe_char(c: char) -> bool {
    c == '/' || (c as u32) < 0x20 || (0x7f <= (c as u32) && (c as u32) <= 0x9f)
}

/// A text that can serve as a file name component.
pub open spec fn safe_name(s: Seq<char>) -> bool {
    forall|i: int| 0 <= i < s.len() ==> !is_unsafe_char(#[trigger] s[i])
}

/// The last segment of a device path: what follows its last `/`, or the
/// whole path if it has none.
pub open spec fn short_id(path: Seq<char>) -> Seq<char>
    decreases path.len(),
{
    if path.len() == 0 {
        path
    } else if path.last() == '/' {
        Seq::empty()
    } else {
        short_id(path.drop_last()).push(path.last())
    }
}

/// The name of the record file for a capture: its time label, the device's
/// short id and its model, joined by `-`, with the extension `.dat`.
pub open spec fn file_name_of(stamp: Seq<char>, path: Seq<char>, model: Seq<char>) -> Seq<char> {
    stamp + seq!['-'] + short_id(path) + seq!['-'] + model + seq!['.', 'd', 'a', 't']
}

/// The contents of the record file for properties `props` and history `hist`.
pub open spec fn record_bytes(props: Seq<FieldModel>, hist: Seq<HistorySample>) -> Seq<u8> {
    layout_bytes(encoded(props), hist)
}

/// The record that file contents `b` hold, or why they hold none.
pub open spec fn record_of(b: Seq<u8>) -> Result<(Seq<FieldModel>, Seq<HistorySample>), StoreError> {
    match parsed_layout(b) {
        None => Err(StoreError::Corrupt),
        Some((p, d)) => match decoded(p) {
            None => Err(StoreError::Malformed),
            Some(m) => Ok((m, d)),
        },
    }
}

fn is_unsafe(c: char) -> (r: bool)
    ensures
        r == is_unsafe_char(c),
{
    c == '/' || (c as u32) < 0x20 || (0x7f <= (c as u32) && (c as u32) <= 0x9f)
}

/// Whether `s` can serve as a file name component.
pub fn is_safe_name(s: &str) -> (r: bool)
    ensures
        r == safe_name(s@),
{
    let n = s.unicode_len();
    let mut i: usize = 0;
    while i < n
        invariant
            n == s@.len(),
            i <= n,
            forall|k: int| 0 <= k < i ==> !is_unsafe_char(#[trigger] s@[k]),
        decreases n - i,
    {
        if is_unsafe(s.get_char(i)) {
            return false;
        }
        i += 1;
    }
    true
}

/// The last segment of a device path.
pub fn short_device_id(path: &str) -> (r: &str)
    ensures
        r@ == short_id(path@),
{
    let len = path.unicode_len();
    let mut j = len;
    proof {
        assert(path@.subrange(0, len as int) =~= path@);
        assert(path@.subrange(len as int, len as int) =~= Seq::<char>::empty());
        assert(short_id(path@) + Seq::<char>::empty() =~= short_id(path@));
    }
    while j > 0 && path.get_char(j - 1) != '/'
        invariant
            len == path@.len(),
            j <= len,
            short_id(path@) == short_id(path@.subrange(0, j as int)) + path@.subrange(
                j as int,
                len as int,
            ),
        decreases j,
    {
        let ghost pre = path@.subrange(0, j as int);
        let ghost c = path@[j - 1];
        assert(pre.drop_last() =~= path@.subrange(0, j - 1));
        assert(short_id(path@.subrange(0, j - 1)).push(c) + path@.subrange(j as int, len as int)
            =~= short_id(path@.subrange(0, j - 1)) + path@.subrange(j - 1, len as int));
        j -= 1;
    }
    proof {
        if j == 0 {
            assert(path@.subrange(0, len as int) =~= path@);
        }
    }
    path.substring_char(j, len)
}

/// The name of the record file for a capture labelled `stamp` of the device
/// at `device_path` whose model is `model`; refused when it holds a path
/// separator or a control character.
pub fn record_file_name(stamp: &str, device_path: &str, model: &str) -> (r: Result<String, StoreError>)
    ensures
        match r {
            Ok(name) => safe_name(file_name_of(stamp@, device_path@, model@)) && name@
                == file_name_of(stamp@, device_path@, model@),
            Err(e) => !safe_name(file_name_of(stamp@, device_path@, model@)) && e
                == StoreError::InvalidName,
        },
{
    let mut name = String::from_str(stamp);
    name.append("-");
    name.append(short_device_id(device_path));
    name.append("-");
    name.append(model);
    name.append(".dat");
    proof {
        reveal_strlit("-");
        reveal_strlit(".dat");
        assert(name@ =~= file_name_of(stamp@, device_path@, model@));
    }
    if is_safe_name(name.as_str()) {
        Ok(name)
    } else {
        Err(StoreError::InvalidName)
    }
}

/// The record file for a capture labelled `stamp` of the device at
/// `device_path`: its name, and the container of the encoded properties and
/// the history. Refused exactly when the name would hold a path separator
/// or a control character.
pub fn record_file(
    stamp: &str,
    device_path: &str,
    hists: Vec<HistorySample>,
    props: &UPowerProperties,
) -> (r: Result<RecordFile, StoreError>)
    ensures
        match r {
            Ok(f) => safe_name(f.name@) && f.name@ == file_name_of(stamp@, device_path@, props.model@)
                && f.bytes@ == record_bytes(props@, hists@),
            Err(e) => e == StoreError::InvalidName && !safe_name(
                file_name_of(stamp@, device_path@, props.model@),
            ),
        },
        safe_name(file_name_of(stamp@, device_path@, props.model@)) ==> r is Ok,
{
    let name = match record_file_name(stamp, device_path, props.model.as_str()) {
        Ok(name) => name,
        Err(e) => {
            return Err(e);
        },
    };
    let layout = DataLayout { p: encode(props), d: hists };
    Ok(RecordFile { name, bytes: layout.to_bytes() })
}

/// A file name of three safe parts joined by the safe separators is safe,
/// and one with an unsafe part is not.
proof fn lemma_file_name_safety(stamp: Seq<char>, path: Seq<char>, model: Seq<char>)
    ensures
        safe_name(file_name_of(stamp, path, model)) <==> (safe_name(stamp) && safe_name(
            short_id(path),
        ) && safe_name(model)),
{
    let id = short_id(path);
    let name = file_name_of(stamp, path, model);
    let a: int = stamp.len() as int + 1;
    let b: int = a + id.len() + 1;
    let c: int = b + model.len();
    assert(name.len() == c + 4);
    assert forall|i: int| 0 <= i < stamp.len() implies name[i] == stamp[i] by {}
    assert forall|i: int| 0 <= i < id.len() implies name[a + i] == id[i] by {}
    assert forall|i: int| 0 <= i < model.len() implies name[b + i] == model[i] by {}
    assert(name[a - 1] == '-');
    assert(name[b - 1] == '-');
    assert(name[c] == '.' && name[c + 1] == 'd' && name[c + 2] == 'a' && name[c + 3] == 't');
    if safe_name(stamp) && safe_name(id) && safe_name(model) {
        assert forall|i: int| 0 <= i < name.len() implies !is_unsafe_char(#[trigger] name[i]) by {
            if i < a - 1 {
                assert(name[i] == stamp[i]);
            } else if a <= i < b - 1 {
                assert(name[i] == id[i - a]);
            } else if b <= i < c {
                assert(name[i] == model[i - b]);
            }
        }
    }
    if safe_name(name) {
        assert forall|i: int| 0 <= i < stamp.len() implies !is_unsafe_char(#[trigger] stamp[i]) by {
            assert(name[i] == stamp[i]);
        }
        assert forall|i: int| 0 <= i < id.len() implies !is_unsafe_char(#[trigger] id[i]) by {
            assert(name[a + i] == id[i]);
        }
        assert forall|i: int| 0 <= i < model.len() implies !is_unsafe_char(#[trigger] model[i]) by {
            assert(name[b + i] == model[i]);
        }
    }
}

/// Relies on `chrono::Local::now` and chrono's text form of a local date and
/// time: the moment of the call in the machine's time zone, written as the
/// date, a space, the time and a space and the offset (`+01:00`). It holds
/// digits, `-`, `:`, `.`, `+` and spaces only, so no path separator and no
/// control character.
#[verifier::external_body]
fn local_time_label() -> (r: String)
    ensures
        safe_name(r@),
{
    chrono::Local::now().to_string()
}

/// The record file for a capture of the device at `device_path` taken now,
/// labelled with the local date and time. Refused exactly when the device's
/// short id or the model holds a path separator or a control character.
pub fn capture_record(
    device_path: &str,
    hists: Vec<HistorySample>,
    props: &UPowerProperties,
) -> (r: Result<RecordFile, StoreError>)
    ensures
        match r {
            Ok(f) => f.bytes@ == record_bytes(props@, hists@) && exists|stamp: Seq<char>|
                safe_name(stamp) && f.name@ == file_name_of(stamp, device_path@, props.model@),
            Err(e) => e == StoreError::InvalidName,
        },
        (safe_name(short_id(device_path@)) && safe_name(props.model@)) <==> r is Ok,
{
    let stamp = local_time_label();
    let r = record_file(stamp.as_str(), device_path, hists, props);
    proof {
        lemma_file_name_safety(stamp@, device_path@, props.model@);
    }
    r
}

/// The record that the contents of a record file hold: `Corrupt` when they
/// are not a container, `Malformed` when its property blob is malformed.
pub fn decode_record(bytes: &[u8]) -> (r: Result<BatHistory, StoreError>)
    ensures
        match record_of(bytes@) {
            Ok(rec) => match r {
                Ok(h) => h@ == rec,
                Err(_) => false,
            },
            Err(e) => r matches Err(e2) && e2 == e,
        },
{
    match DataLayout::from_bytes(bytes) {
        None => Err(StoreError::Corrupt),
        Some(layout) => match decode(layout.p.as_slice()) {
            Err(DecodeError::Malformed) => Err(StoreError::Malformed),
            Ok(properties) => Ok(BatHistory { properties, data: layout.d }),
        },
    }
}

/// A file that did not yield a record, and why.
#[derive(Clone, Debug, PartialEq, Eq)]
pub struct LoadFailure {
    pub file: String,
    pub error: StoreError,
}

impl View for LoadFailure {
    type V = (Seq<char>, StoreError);

    open spec fn view(&self) -> (Seq<char>, StoreError) {
        (self.file@, self.error)
    }
}

/// What reading a set of record files gave: the records of the files that
/// hold one, and a failure for each of the others, both in file order.
#[derive(Clone, Debug, PartialEq, Eq)]
pub struct LoadReport {
    pub records: Vec<BatHistory>,
    pub failures: Vec<LoadFailure>,
}

impl LoadReport {
    pub open spec fn records_view(&self) -> Seq<(Seq<FieldModel>, Seq<HistorySample>)> {
        self.records@.map_values(|r: BatHistory| r@)
    }

    pub open spec fn failures_view(&self) -> Seq<(Seq<char>, StoreError)> {
        self.failures@.map_values(|f: LoadFailure| f@)
    }
}

/// The files' names and contents.
pub open spec fn files_view(files: Seq<RecordFile>) -> Seq<(Seq<char>, Seq<u8>)> {
    files.map_values(|f: RecordFile| f@)
}

/// The records that `files` hold, and the failures of the files that hold
/// none, both in file order.
pub open spec fn loaded(files: Seq<(Seq<char>, Seq<u8>)>) -> (
    Seq<(Seq<FieldModel>, Seq<HistorySample>)>,
    Seq<(Seq<char>, StoreError)>,
)
    decreases files.len(),
{
    if files.len() == 0 {
        (Seq::empty(), Seq::empty())
    } else {
        let prev = loaded(files.drop_last());
        let f = files.last();
        match record_of(f.1) {
            Ok(rec) => (prev.0.push(rec), prev.1),
            Err(e) => (prev.0, prev.1.push((f.0, e))),
        }
    }
}

/// Decodes every file; a file that holds no record is reported and does not
/// stop the others.
pub fn load_records(files: &Vec<RecordFile>) -> (r: LoadReport)
    ensures
        (r.records_view(), r.failures_view()) == loaded(files_view(files@)),
{
    let mut records: Vec<BatHistory> = Vec::new();
    let mut failures: Vec<LoadFailure> = Vec::new();
    let mut i: usize = 0;
    proof {
        assert(files_view(files@.subrange(0, 0)) =~= Seq::empty());
        assert(records@.map_values(|r: BatHistory| r@) =~= Seq::empty());
        assert(failures@.map_values(|f: LoadFailure| f@) =~= Seq::empty());
    }
    while i < files.len()
        invariant
            i <= files@.len(),
            (records@.map_values(|r: BatHistory| r@), failures@.map_values(|f: LoadFailure| f@))
                == loaded(files_view(files@.subrange(0, i as int))),
        decreases files.len() - i,
    {
        let ghost before = files_view(files@.subrange(0, i as int));
        let ghost old_records = records@;
        let ghost old_failures = failures@;
        let file = &files[i];
        match decode_record(file.bytes.as_slice()) {
            Ok(h) => {
                records.push(h);
            },
            Err(e) => {
                failures.push(LoadFailure { file: file.name.clone(), error: e });
            },
        }
        proof {
            let after = files_view(files@.subrange(0, i + 1));
            assert(after.drop_last() =~= before);
            assert(after.last() == file@);
            assert(records@.map_values(|r: BatHistory| r@) =~= if records@.len()
                > old_records.len() {
                old_records.map_values(|r: BatHistory| r@).push(records@.last()@)
            } else {
                old_records.map_values(|r: BatHistory| r@)
            });
            assert(failures@.map_values(|f: LoadFailure| f@) =~= if failures@.len()
                > old_failures.len() {
                old_failures.map_values(|f: LoadFailure| f@).push(failures@.last()@)
            } else {
                old_failures.map_values(|f: LoadFailure| f@)
            });
        }
        i += 1;
    }
    proof {
        assert(files@.subrange(0, i as int) =~= files@);
    }
    LoadReport { records, failures }
}

/// How many of `files` hold a record.
pub open spec fn count_records(files: Seq<(Seq<char>, Seq<u8>)>) -> nat
    decreases files.len(),
{
    if files.len() == 0 {
        0
    } else {
        count_records(files.drop_last()) + if record_of(files.last().1) is Ok {
            1nat
        } else {
            0nat
        }
    }
}

/// The files among `files` that hold a record, in order.
pub open spec fn record_holders(files: Seq<(Seq<char>, Seq<u8>)>) -> Seq<(Seq<char>, Seq<u8>)> {
    files.filter(|f: (Seq<char>, Seq<u8>)| record_of(f.1) is Ok)
}

/// The files among `files` that hold no record, in order.
pub open spec fn refused_files(files: Seq<(Seq<char>, Seq<u8>)>) -> Seq<(Seq<char>, Seq<u8>)> {
    files.filter(|f: (Seq<char>, Seq<u8>)| !(record_of(f.1) is Ok))
}

/// Reading a set of files, in whatever order they come, yields exactly the
/// records of the files that hold one, and exactly one failure for each
/// other file, naming it and giving its error: a bad file costs its own
/// record and no other.
pub proof fn lemma_load_isolation(files: Seq<(Seq<char>, Seq<u8>)>)
    ensures
        loaded(files).0 == record_holders(files).map_values(
            |f: (Seq<char>, Seq<u8>)| record_of(f.1)->Ok_0,
        ),
        loaded(files).1 == refused_files(files).map_values(
            |f: (Seq<char>, Seq<u8>)| (f.0, record_of(f.1)->Err_0),
        ),
        loaded(files).0.len() == count_records(files),
        loaded(files).1.len() == files.len() - count_records(files),
    decreases files.len(),
{
    reveal(Seq::filter);
    let rec = |f: (Seq<char>, Seq<u8>)| record_of(f.1)->Ok_0;
    let fail = |f: (Seq<char>, Seq<u8>)| (f.0, record_of(f.1)->Err_0);
    if files.len() == 0 {
        assert(record_holders(files).map_values(rec) =~= Seq::empty());
        assert(refused_files(files).map_values(fail) =~= Seq::empty());
    } else {
        let prev = files.drop_last();
        let f = files.last();
        lemma_load_isolation(prev);
        if record_of(f.1) is Ok {
            assert(record_holders(files) == record_holders(prev).push(f));
            assert(refused_files(files) == refused_files(prev));
            assert(record_holders(prev).push(f).map_values(rec) =~= record_holders(
                prev,
            ).map_values(rec).push(rec(f)));
        } else {
            assert(record_holders(files) == record_holders(prev));
            assert(refused_files(files) == refused_files(prev).push(f));
            assert(refused_files(prev).push(f).map_values(fail) =~= refused_files(
                prev,
            ).map_values(fail).push(fail(f)));
        }
    }
}

/// Saving a record and reading its file back gives the saved properties and
/// the saved history, element for element and in order.
pub proof fn lemma_save_load_round_trip(
    props: UPowerProperties,
    hist: Seq<HistorySample>,
    name: Seq<char>,
)
    requires
        encoded(props@).len() <= usize::MAX,
        hist.len() <= usize::MAX,
    ensures
        record_of(record_bytes(props@, hist)) == Ok::<_, StoreError>((props@, hist)),
        loaded(seq![(name, record_bytes(props@, hist))]) == (
            seq![(props@, hist)],
            Seq::<(Seq<char>, StoreError)>::empty(),
        ),
{
    crate::container::lemma_layout_round_trip(encoded(props@), hist);
    crate::codec::lemma_round_trip(props);
    let files = seq![(name, record_bytes(props@, hist))];
    assert(files.drop_last() =~= Seq::empty());
    assert(loaded(files.drop_last()) == (
        Seq::<(Seq<FieldModel>, Seq<HistorySample>)>::empty(),
        Seq::<(Seq<char>, StoreError)>::empty(),
    ));
    assert(files.last() == (name, record_bytes(props@, hist)));
    assert(Seq::<(Seq<FieldModel>, Seq<HistorySample>)>::empty().push((props@, hist)) =~= seq![
        (props@, hist),
    ]);
}

/// A device without history stores an empty series, which reads back as an
/// empty series.
pub proof fn lemma_empty_history_round_trip(props: UPowerProperties)
    requires
        !props.has_history,
        encoded(props@).len() <= usize::MAX,
    ensures
        record_of(record_bytes(props@, Seq::empty())) == Ok::<_, StoreError>(
            (props@, Seq::<HistorySample>::empty()),
        ),
{
    lemma_save_load_round_trip(props, Seq::empty(), Seq::empty());
}

/// Two devices whose short ids differ get different file names for the same
/// capture label and model.
pub proof fn lemma_distinct_devices_distinct_names(
    stamp: Seq<char>,
    path_a: Seq<char>,
    path_b: Seq<char>,
    model: Seq<char>,
)
    requires
        short_id(path_a) != short_id(path_b),
    ensures
        file_name_of(stamp, path_a, model) != file_name_of(stamp, path_b, model),
{
    let a = file_name_of(stamp, path_a, model);
    let b = file_name_of(stamp, path_b, model);
    let start = stamp.len() + 1;
    let tail = model.len() + 5;
    if a == b {
        assert(a.subrange(start as int, a.len() - tail) =~= short_id(path_a));
        assert(b.subrange(start as int, b.len() - tail) =~= short_id(path_b));
    }
}

/// Records of two devices saved one after the other, in files of different
/// names, are both found when the files are read.
pub proof fn lemma_two_devices_both_loaded(
    name_a: Seq<char>,
    props_a: UPowerProperties,
    hist_a: Seq<HistorySample>,
    name_b: Seq<char>,
    props_b: UPowerProperties,
    hist_b: Seq<HistorySample>,
)
    requires
        name_a != name_b,
        encoded(props_a@).len() <= usize::MAX,
        hist_a.len() <= usize::MAX,
        encoded(props_b@).len() <= usize::MAX,
        hist_b.len() <= usize::MAX,
    ensures
        loaded(
            seq![(name_a, record_bytes(props_a@, hist_a)), (name_b, record_bytes(props_b@, hist_b))],
        ).0 == seq![(props_a@, hist_a), (props_b@, hist_b)],
{
    lemma_save_load_round_trip(props_a, hist_a, name_a);
    lemma_save_load_round_trip(props_b, hist_b, name_b);
    let files = seq![
        (name_a, record_bytes(props_a@, hist_a)),
        (name_b, record_bytes(props_b@, hist_b)),
    ];
    assert(files.drop_last() =~= seq![(name_a, record_bytes(props_a@, hist_a))]);
    assert(seq![(props_a@, hist_a)].push((props_b@, hist_b)) =~= seq![
        (props_a@, hist_a),
        (props_b@, hist_b),
    ]);
}

} // verus!
