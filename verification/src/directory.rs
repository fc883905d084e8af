//! The header resolver: one canonical header list for the files of a
//! directory, and the records of the files that agree with it.

use vstd::prelude::*;
use crate::search::{
    first_index, lemma_first_index, lemma_first_index_is_first, lemma_no_first_index,
};
use crate::source::{
    load_data_from_csv, loaded, record_texts, FileContent, IngestionDefect, IngestionError,
};
use crate::listing::{
    arranged_names, in_order, is_name_order, lemma_lex_not_after_transitive, name_order,
};
use crate::text::{copy_names, lex_compare, lex_lt, same_names, texts, Order};

verus! {

/// What reading one file of a directory gave.
#[derive(Debug, PartialEq, Eq)]
pub struct FileReading {
    /// The file's name.
    pub name: String,
    /// Its header list, or why it has none.
    pub headers: Result<Vec<String>, IngestionError>,
    /// Its records, or why they could not be read.
    pub records: Result<Vec<Vec<String>>, IngestionError>,
}

/// What a file reading is to the contracts: the texts it holds, and of
/// an error its kind.
pub struct FileView {
    pub name: Seq<char>,
    pub headers: Result<Seq<Seq<char>>, IngestionDefect>,
    pub records: Result<Seq<Seq<Seq<char>>>, IngestionDefect>,
}

impl View for FileReading {
    type V = FileView;

    open spec fn view(&self) -> FileView {
        FileView {
            name: self.name@,
            headers: match self.headers {
                Ok(names) => Ok(texts(names@)),
                Err(error) => Err(error.defect()),
            },
            records: match self.records {
                Ok(records) => Ok(record_texts(records@)),
                Err(error) => Err(error.defect()),
            },
        }
    }
}

/// The views of the readings, in order.
pub open spec fn file_views(files: Seq<FileReading>) -> Seq<FileView> {
    files.map_values(|f: FileReading| f@)
}

/// What happened while the files were gone through. The number is the
/// file's place in the list.
#[derive(Debug, Clone, Copy, PartialEq, Eq, Structural)]
pub enum ScanNotice {
    /// The designated file is asked for the canonical headers.
    SettingMainHeaders(usize),
    /// The file is asked for the canonical headers.
    Probing(usize),
    /// Warning: the file has an empty header list; the next one is asked.
    NoHeaders(usize),
    /// Warning: the file's headers cannot be read; the next one is asked.
    ProbeFailed(usize),
    /// The file's records are taken up.
    Processing(usize),
    /// Warning: the file's headers differ from the canonical ones, so its
    /// records are left out.
    HeaderMismatch(usize),
    /// Warning: the file cannot be read, so it is left out.
    Skipped(usize),
}

/// Why no canonical header list could be had.
#[derive(Debug, Clone, Copy, PartialEq, Eq, Structural)]
pub enum HeaderFailure {
    /// No file has the designated name.
    DesignatedFileNotFound,
    /// The designated file has an empty header list.
    DesignatedFileEmpty(usize),
    /// The headers of the designated file cannot be read.
    DesignatedFileUnreadable(usize),
    /// No file has a header list that can be read and is not empty.
    NoUsableFile,
    /// No file is admitted under the canonical headers.
    NoFileAdmitted,
}

/// Why a directory gives no data.
#[derive(Debug, Clone, Copy, PartialEq, Eq, Structural)]
pub enum DirectoryError {
    /// The directory holds no CSV file.
    NoCsvFiles,
    /// The files do not establish a canonical header list.
    NoCanonicalHeaders(HeaderFailure),
}

/// The outcome of resolving the headers of a directory's files.
#[derive(Debug, PartialEq, Eq)]
pub struct HeaderResolution {
    /// The canonical headers and the records of the admitted files, one
    /// file after the other.
    pub result: Result<(Vec<String>, Vec<Vec<String>>), DirectoryError>,
    /// The canonical headers, where they were established, also if no file
    /// was admitted under them.
    pub canonical: Option<Vec<String>>,
    /// What happened on the way, in order.
    pub notices: Vec<ScanNotice>,
}

impl HeaderResolution {
    /// The result over texts.
    pub open spec fn result_view(self) -> Result<
        (Seq<Seq<char>>, Seq<Seq<Seq<char>>>),
        DirectoryError,
    > {
        match self.result {
            Ok((headers, records)) => Ok((texts(headers@), record_texts(records@))),
            Err(error) => Err(error),
        }
    }

    /// The canonical headers over texts.
    pub open spec fn canonical_view(self) -> Option<Seq<Seq<char>>> {
        match self.canonical {
            Some(headers) => Some(texts(headers@)),
            None => None,
        }
    }
}

/// One file of a directory: its name, and what was found in it.
#[derive(Debug, Clone, PartialEq, Eq)]
pub struct SourceFile {
    pub name: String,
    pub content: FileContent,
}

/// What reading the files of a directory and resolving their headers gave.
#[derive(Debug, PartialEq, Eq)]
pub struct DirectoryLoad {
    /// The places of the files as they were given, in the order of their
    /// names, which is the order they were gone through in.
    pub order: Vec<usize>,
    /// What each file gave, in the order they were gone through in.
    pub readings: Vec<FileReading>,
    /// What the readings resolve to. Its notices count the files in the
    /// order they were gone through in, as `readings` holds them.
    pub resolution: HeaderResolution,
}

/// The names of the files, in order.
pub open spec fn file_names(files: Seq<FileView>) -> Seq<Seq<char>> {
    files.map_values(|f: FileView| f.name)
}

/// The names of the source files, in order.
pub open spec fn source_names(files: Seq<SourceFile>) -> Seq<Seq<char>> {
    files.map_values(|f: SourceFile| f.name@)
}

/// The source files in the order that `order` gives.
pub open spec fn arranged(files: Seq<SourceFile>, order: Seq<usize>) -> Seq<SourceFile> {
    order.map_values(|i: usize| files[i as int])
}

/// The reading of a file that could not be read says why, in the words
/// that came with the file.
pub open spec fn says_why(reading: FileReading, reason: Seq<char>, load_records: bool) -> bool {
    &&& reading.headers matches Err(error)
    &&& error.message_text() == reason
    &&& load_records ==> {
        &&& reading.records matches Err(failure)
        &&& failure.message_text() == reason
    }
}

/// Each reading of a file that could not be read says why.
pub open spec fn all_say_why(
    files: Seq<SourceFile>,
    readings: Seq<FileReading>,
    load_records: bool,
) -> bool {
    forall|k: int|
        0 <= k < files.len() && k < readings.len() ==> (#[trigger] files[k].content matches FileContent::Unreadable(
            reason,
        ) ==> says_why(readings[k], reason@, load_records))
}

/// What reading a file gives. The header list is read by itself. The
/// records are read only where they are wanted, and they are had only
/// where the whole file can be read.
pub open spec fn reading_of(file: SourceFile, load_records: bool) -> FileView {
    FileView {
        name: file.name@,
        headers: match loaded(file.content, false) {
            Ok((names, _)) => Ok(names),
            Err(defect) => Err(defect),
        },
        records: if load_records {
            match loaded(file.content, true) {
                Ok((_, rows)) => Ok(rows),
                Err(defect) => Err(defect),
            }
        } else {
            Ok(Seq::empty())
        },
    }
}

/// What reading each of the files gives, in order.
pub open spec fn readings_of(files: Seq<SourceFile>, load_records: bool) -> Seq<FileView> {
    files.map_values(|f: SourceFile| reading_of(f, load_records))
}

/// The file's header list can be read and is not empty.
pub open spec fn usable(f: FileView) -> bool {
    f.headers matches Ok(names) && names.len() > 0
}

/// The canonical header list. With a designated file it is that file's,
/// the first of that name; without one it is that of the first file whose
/// header list can be read and is not empty.
pub open spec fn canonical_headers(files: Seq<FileView>, designated: Option<Seq<char>>) -> Result<
    Seq<Seq<char>>,
    HeaderFailure,
> {
    match designated {
        Some(name) => match first_index(files, |f: FileView| f.name == name) {
            None => Err(HeaderFailure::DesignatedFileNotFound),
            Some(i) => match files[i].headers {
                Err(_) => Err(HeaderFailure::DesignatedFileUnreadable(i as usize)),
                Ok(names) => if names.len() == 0 {
                    Err(HeaderFailure::DesignatedFileEmpty(i as usize))
                } else {
                    Ok(names)
                },
            },
        },
        None => match first_index(files, |f: FileView| usable(f)) {
            None => Err(HeaderFailure::NoUsableFile),
            Some(i) => Ok(files[i].headers.unwrap()),
        },
    }
}

/// The file is admitted under the canonical headers `main`: its own
/// header list is exactly that one, and where records are wanted they can
/// be read.
pub open spec fn admitted(f: FileView, main: Seq<Seq<char>>, load_records: bool) -> bool {
    f.headers == Ok::<Seq<Seq<char>>, IngestionDefect>(main) && (load_records ==> f.records is Ok)
}

/// Some file is admitted.
pub open spec fn any_admitted(files: Seq<FileView>, main: Seq<Seq<char>>, load_records: bool) -> bool {
    exists|i: int| 0 <= i < files.len() && admitted(#[trigger] files[i], main, load_records)
}

/// The records of the admitted files, one file after the other in the
/// order of the files. The other files give nothing.
pub open spec fn merged_records(files: Seq<FileView>, main: Seq<Seq<char>>) -> Seq<
    Seq<Seq<char>>,
>
    decreases files.len(),
{
    if files.len() == 0 {
        Seq::empty()
    } else if admitted(files.last(), main, true) {
        merged_records(files.drop_last(), main) + files.last().records.unwrap()
    } else {
        merged_records(files.drop_last(), main)
    }
}

/// What the files of a directory resolve to: the canonical headers with
/// the records of the admitted files, or the reason why there is no data.
pub open spec fn resolution(
    files: Seq<FileView>,
    load_records: bool,
    designated: Option<Seq<char>>,
) -> Result<(Seq<Seq<char>>, Seq<Seq<Seq<char>>>), DirectoryError> {
    if files.len() == 0 {
        Err(DirectoryError::NoCsvFiles)
    } else {
        match canonical_headers(files, designated) {
            Err(failure) => Err(DirectoryError::NoCanonicalHeaders(failure)),
            Ok(main) => if !any_admitted(files, main, load_records) {
                Err(DirectoryError::NoCanonicalHeaders(HeaderFailure::NoFileAdmitted))
            } else if load_records {
                Ok((main, merged_records(files, main)))
            } else {
                Ok((main, Seq::empty()))
            },
        }
    }
}

/// The canonical headers that the files establish, if they establish any.
pub open spec fn established(files: Seq<FileView>, designated: Option<Seq<char>>) -> Option<
    Seq<Seq<char>>,
> {
    if files.len() == 0 {
        None
    } else {
        match canonical_headers(files, designated) {
            Ok(main) => Some(main),
            Err(_) => None,
        }
    }
}

/// What is noted when the file at `i` is asked for the canonical headers.
pub open spec fn probe_step(f: FileView, i: int) -> Seq<ScanNotice> {
    match f.headers {
        Err(_) => seq![ScanNotice::Probing(i as usize), ScanNotice::ProbeFailed(i as usize)],
        Ok(names) => if names.len() == 0 {
            seq![ScanNotice::Probing(i as usize), ScanNotice::NoHeaders(i as usize)]
        } else {
            seq![ScanNotice::Probing(i as usize)]
        },
    }
}

/// What is noted when the first `upto` files are asked one after the
/// other.
pub open spec fn probe_notices(files: Seq<FileView>, upto: int) -> Seq<ScanNotice>
    decreases upto,
{
    if upto <= 0 {
        Seq::empty()
    } else {
        probe_notices(files, upto - 1) + probe_step(files[upto - 1], upto - 1)
    }
}

/// What is noted when the records of the file at `i` are taken up.
pub open spec fn load_step(f: FileView, i: int, main: Seq<Seq<char>>) -> Seq<ScanNotice> {
    if f.headers is Err || f.records is Err {
        seq![ScanNotice::Processing(i as usize), ScanNotice::Skipped(i as usize)]
    } else if f.headers != Ok::<Seq<Seq<char>>, IngestionDefect>(main) {
        seq![ScanNotice::Processing(i as usize), ScanNotice::HeaderMismatch(i as usize)]
    } else {
        seq![ScanNotice::Processing(i as usize)]
    }
}

/// What is noted when the records of the first `upto` files are taken up.
pub open spec fn load_notices(files: Seq<FileView>, main: Seq<Seq<char>>, upto: int) -> Seq<
    ScanNotice,
>
    decreases upto,
{
    if upto <= 0 {
        Seq::empty()
    } else {
        load_notices(files, main, upto - 1) + load_step(files[upto - 1], upto - 1, main)
    }
}

/// What is noted while the canonical headers are looked for.
pub open spec fn header_notices(files: Seq<FileView>, designated: Option<Seq<char>>) -> Seq<
    ScanNotice,
> {
    match designated {
        Some(name) => match first_index(files, |f: FileView| f.name == name) {
            Some(i) => seq![ScanNotice::SettingMainHeaders(i as usize)],
            None => Seq::empty(),
        },
        None => match first_index(files, |f: FileView| usable(f)) {
            Some(i) => probe_notices(files, i + 1),
            None => probe_notices(files, files.len() as int),
        },
    }
}

/// Everything that is noted, in order: first what the search for the
/// canonical headers gives, then, where there are canonical headers and
/// records are wanted, what taking up the records of each file gives.
pub open spec fn scan_notices(
    files: Seq<FileView>,
    load_records: bool,
    designated: Option<Seq<char>>,
) -> Seq<ScanNotice> {
    if files.len() == 0 {
        Seq::empty()
    } else {
        match canonical_headers(files, designated) {
            Ok(main) => if load_records {
                header_notices(files, designated) + load_notices(files, main, files.len() as int)
            } else {
                header_notices(files, designated)
            },
            Err(_) => header_notices(files, designated),
        }
    }
}

/// Canonical headers are never an empty list.
pub proof fn lemma_canonical_headers_not_empty(
    files: Seq<FileView>,
    designated: Option<Seq<char>>,
)
    ensures
        canonical_headers(files, designated) matches Ok(main) ==> main.len() > 0,
{
    if designated is None {
        lemma_first_index_is_first(files, |f: FileView| usable(f));
    }
}

/// Every merged record comes from a file that is admitted: a file with
/// other headers, or one that cannot be read, gives none.
pub proof fn lemma_merged_records_come_from_admitted_files(
    files: Seq<FileView>,
    main: Seq<Seq<char>>,
    k: int,
)
    requires
        0 <= k < merged_records(files, main).len(),
    ensures
        exists|i: int, j: int|
            0 <= i < files.len() && admitted(#[trigger] files[i], main, true) && 0 <= j
                < files[i].records.unwrap().len() && merged_records(files, main)[k]
                == #[trigger] files[i].records.unwrap()[j],
    decreases files.len(),
{
    let earlier = files.drop_last();
    let before = merged_records(earlier, main);
    if k < before.len() {
        lemma_merged_records_come_from_admitted_files(earlier, main, k);
        let (i, j) = choose|i: int, j: int|
            0 <= i < earlier.len() && admitted(#[trigger] earlier[i], main, true) && 0 <= j
                < earlier[i].records.unwrap().len() && before[k]
                == #[trigger] earlier[i].records.unwrap()[j];
        assert(files[i] == earlier[i]);
        assert(merged_records(files, main)[k] == files[i].records.unwrap()[j]);
    } else {
        let i = files.len() - 1;
        let j = k - before.len();
        assert(admitted(files[i], main, true));
        assert(merged_records(files, main)[k] == files[i].records.unwrap()[j]);
    }
}

/// The number of merged records is the sum of the numbers of records of
/// the admitted files.
pub open spec fn admitted_count(files: Seq<FileView>, main: Seq<Seq<char>>) -> nat
    decreases files.len(),
{
    if files.len() == 0 {
        0
    } else if admitted(files.last(), main, true) {
        admitted_count(files.drop_last(), main) + files.last().records.unwrap().len()
    } else {
        admitted_count(files.drop_last(), main)
    }
}

/// The merged data has as many records as the admitted files have
/// together.
pub proof fn lemma_merged_records_len(files: Seq<FileView>, main: Seq<Seq<char>>)
    ensures
        merged_records(files, main).len() == admitted_count(files, main),
    decreases files.len(),
{
    if files.len() > 0 {
        lemma_merged_records_len(files.drop_last(), main);
    }
}

/// The view of an optional name.
pub open spec fn name_view(name: Option<String>) -> Option<Seq<char>> {
    match name {
        Some(s) => Some(s@),
        None => None,
    }
}

/// Looks for the first file of the given name.
fn find_named(files: &Vec<FileReading>, name: &String) -> (r: Option<usize>)
    ensures
        match r {
            Some(i) => first_index(file_views(files@), |f: FileView| f.name == name@) == Some(
                i as int,
            ) && i < files.len(),
            None => first_index(file_views(files@), |f: FileView| f.name == name@) is None,
        },
{
    let ghost fv = file_views(files@);
    let ghost p = |f: FileView| f.name == name@;
    let mut i: usize = 0;
    while i < files.len()
        invariant
            i <= files.len(),
            fv == file_views(files@),
            p == |f: FileView| f.name == name@,
            forall|j: int| 0 <= j < i ==> !p(#[trigger] fv[j]),
        decreases files.len() - i,
    {
        if files[i].name == *name {
            proof {
                assert(p(fv[i as int]));
                lemma_first_index(fv, p, i as int);
            }
            return Some(i);
        }
        i += 1;
    }
    proof {
        lemma_no_first_index(fv, p);
    }
    None
}

/// Asks the files one after the other for a header list that can be read
/// and is not empty, and notes what each of them gives.
fn probe(files: &Vec<FileReading>, notices: &mut Vec<ScanNotice>) -> (r: Option<Vec<String>>)
    ensures
        match first_index(file_views(files@), |f: FileView| usable(f)) {
            Some(i) => r matches Some(names) && Ok::<Seq<Seq<char>>, IngestionDefect>(
                texts(names@),
            ) == file_views(files@)[i].headers && final(notices)@ == old(notices)@ + probe_notices(
                file_views(files@),
                i + 1,
            ),
            None => r is None && final(notices)@ == old(notices)@ + probe_notices(
                file_views(files@),
                files@.len() as int,
            ),
        },
{
    let ghost fv = file_views(files@);
    let ghost p = |f: FileView| usable(f);
    let mut i: usize = 0;
    assert(notices@ == old(notices)@ + probe_notices(fv, 0));
    while i < files.len()
        invariant
            i <= files.len(),
            fv == file_views(files@),
            p == |f: FileView| usable(f),
            forall|j: int| 0 <= j < i ==> !p(#[trigger] fv[j]),
            notices@ == old(notices)@ + probe_notices(fv, i as int),
        decreases files.len() - i,
    {
        let ghost before = notices@;
        notices.push(ScanNotice::Probing(i));
        match &files[i].headers {
            Ok(names) => {
                if names.len() > 0 {
                    proof {
                        assert(p(fv[i as int]));
                        lemma_first_index(fv, p, i as int);
                        assert(notices@ == before + probe_step(fv[i as int], i as int));
                    }
                    return Some(copy_names(names));
                }
                notices.push(ScanNotice::NoHeaders(i));
            },
            Err(_) => {
                notices.push(ScanNotice::ProbeFailed(i));
            },
        }
        assert(notices@ == before + probe_step(fv[i as int], i as int));
        i += 1;
    }
    proof {
        lemma_no_first_index(fv, p);
    }
    None
}

/// Appends copies of the records of `from` to `to`.
fn append_records(to: &mut Vec<Vec<String>>, from: &Vec<Vec<String>>)
    ensures
        record_texts(final(to)@) == record_texts(old(to)@) + record_texts(from@),
{
    let mut i: usize = 0;
    assert(record_texts(to@) == record_texts(old(to)@) + record_texts(from@.take(0)));
    while i < from.len()
        invariant
            i <= from.len(),
            record_texts(to@) == record_texts(old(to)@) + record_texts(from@.take(i as int)),
        decreases from.len() - i,
    {
        let ghost before = to@;
        let record = copy_names(&from[i]);
        to.push(record);
        proof {
            assert(from@.take(i + 1) == from@.take(i as int).push(from@[i as int]));
            assert(record_texts(to@) == record_texts(before).push(texts(from@[i as int]@)));
            assert(record_texts(from@.take(i + 1)) == record_texts(from@.take(i as int)).push(
                texts(from@[i as int]@),
            ));
        }
        i += 1;
    }
    assert(from@.take(from@.len() as int) == from@);
}

/// Goes through the files under the canonical headers `main`: tells
/// whether any file is admitted, and where records are wanted gathers
/// those of the admitted files and notes what each file gives.
fn gather(
    files: &Vec<FileReading>,
    main: &Vec<String>,
    load_records: bool,
    notices: &mut Vec<ScanNotice>,
) -> (r: (bool, Vec<Vec<String>>))
    ensures
        r.0 == any_admitted(file_views(files@), texts(main@), load_records),
        load_records ==> record_texts(r.1@) == merged_records(file_views(files@), texts(main@)),
        !load_records ==> r.1@.len() == 0,
        load_records ==> final(notices)@ == old(notices)@ + load_notices(
            file_views(files@),
            texts(main@),
            files@.len() as int,
        ),
        !load_records ==> final(notices)@ == old(notices)@,
{
    let ghost fv = file_views(files@);
    let ghost m = texts(main@);
    let mut any = false;
    let mut records: Vec<Vec<String>> = Vec::new();
    let mut i: usize = 0;
    proof {
        assert(notices@ == old(notices)@ + load_notices(fv, m, 0));
        assert(fv.take(0) =~= Seq::<FileView>::empty());
        assert(record_texts(records@) =~= merged_records(fv.take(0), m));
    }
    while i < files.len()
        invariant
            i <= files.len(),
            fv == file_views(files@),
            m == texts(main@),
            any == any_admitted(fv.take(i as int), m, load_records),
            load_records ==> record_texts(records@) == merged_records(fv.take(i as int), m),
            !load_records ==> records@.len() == 0,
            load_records ==> notices@ == old(notices)@ + load_notices(fv, m, i as int),
            !load_records ==> notices@ == old(notices)@,
        decreases files.len() - i,
    {
        let file = &files[i];
        let ghost before = notices@;
        let ghost earlier = fv.take(i as int);
        let ghost now = fv.take(i + 1);
        proof {
            assert(now.drop_last() == earlier);
            assert(now.last() == fv[i as int]);
            assert(fv[i as int] == file@);
        }
        let mut admits = false;
        if load_records {
            notices.push(ScanNotice::Processing(i));
            match (&file.headers, &file.records) {
                (Ok(names), Ok(rows)) => {
                    if same_names(names, main) {
                        append_records(&mut records, rows);
                        admits = true;
                    } else {
                        notices.push(ScanNotice::HeaderMismatch(i));
                    }
                },
                _ => {
                    notices.push(ScanNotice::Skipped(i));
                },
            }
            assert(notices@ == before + load_step(fv[i as int], i as int, m));
        } else {
            match &file.headers {
                Ok(names) => {
                    if same_names(names, main) {
                        admits = true;
                    }
                },
                Err(_) => {},
            }
        }
        proof {
            assert(admits == admitted(fv[i as int], m, load_records));
            if any_admitted(earlier, m, load_records) {
                let k = choose|k: int|
                    0 <= k < earlier.len() && admitted(#[trigger] earlier[k], m, load_records);
                assert(now[k] == earlier[k]);
            }
            if admits {
                assert(admitted(now[i as int], m, load_records));
            }
            if any_admitted(now, m, load_records) && !admits {
                let k = choose|k: int|
                    0 <= k < now.len() && admitted(#[trigger] now[k], m, load_records);
                assert(earlier[k] == now[k]);
            }
        }
        any = any || admits;
        i += 1;
    }
    assert(fv.take(files@.len() as int) == fv);
    (any, records)
}

/// Resolves the headers of a directory's files. The files stand in the
/// order of their names, and are gone through in that order. Without a
/// designated file the first file whose
/// header list can be read and is not empty gives the canonical headers;
/// with one, the file of that name does, and it is an error if there is
/// none or if it has no header list. A file is admitted if its header list
/// is exactly the canonical one. The records of the admitted files are
/// joined in the order of the files; the other files give a warning and no
/// records. It is an error if no file is admitted.
pub fn resolve_headers(
    files: &Vec<FileReading>,
    load_records: bool,
    designated: &Option<String>,
) -> (r: HeaderResolution)
    requires
        in_order(file_names(file_views(files@))),
    ensures
        r.result_view() == resolution(file_views(files@), load_records, name_view(*designated)),
        r.result matches Ok((headers, _)) ==> headers@.len() > 0,
        r.canonical_view() == established(file_views(files@), name_view(*designated)),
        r.notices@ == scan_notices(file_views(files@), load_records, name_view(*designated)),
{
    let ghost fv = file_views(files@);
    let mut notices: Vec<ScanNotice> = Vec::new();
    if files.len() == 0 {
        return HeaderResolution {
            result: Err(DirectoryError::NoCsvFiles),
            canonical: None,
            notices,
        };
    }
    let found: Result<Vec<String>, HeaderFailure> = match designated {
        Some(name) => match find_named(files, name) {
            None => Err(HeaderFailure::DesignatedFileNotFound),
            Some(i) => {
                notices.push(ScanNotice::SettingMainHeaders(i));
                assert(fv[i as int] == files@[i as int]@);
                match &files[i].headers {
                    Err(_) => Err(HeaderFailure::DesignatedFileUnreadable(i)),
                    Ok(names) => if names.len() == 0 {
                        Err(HeaderFailure::DesignatedFileEmpty(i))
                    } else {
                        Ok(copy_names(names))
                    },
                }
            },
        },
        None => match probe(files, &mut notices) {
            None => Err(HeaderFailure::NoUsableFile),
            Some(names) => Ok(names),
        },
    };
    assert(notices@ =~= header_notices(fv, name_view(*designated)));
    let main = match found {
        Err(failure) => {
            return HeaderResolution {
                result: Err(DirectoryError::NoCanonicalHeaders(failure)),
                canonical: None,
                notices,
            };
        },
        Ok(names) => names,
    };
    assert(canonical_headers(fv, name_view(*designated)) == Ok::<Seq<Seq<char>>, HeaderFailure>(
        texts(main@),
    ));
    proof {
        lemma_canonical_headers_not_empty(fv, name_view(*designated));
    }
    let (any, records) = gather(files, &main, load_records, &mut notices);
    if !any {
        return HeaderResolution {
            result: Err(DirectoryError::NoCanonicalHeaders(HeaderFailure::NoFileAdmitted)),
            canonical: Some(main),
            notices,
        };
    }
    proof {
        if !load_records {
            assert(record_texts(records@) =~= Seq::empty());
        }
    }
    let canonical = Some(copy_names(&main));
    HeaderResolution { result: Ok((main, records)), canonical, notices }
}

/// Reads one file of a directory. A file that cannot be read or parsed
/// gives a reading that says so.
pub fn read_source(file: &SourceFile, load_records: bool) -> (r: FileReading)
    ensures
        r@ == reading_of(*file, load_records),
        file.content matches FileContent::Unreadable(reason) ==> says_why(
            r,
            reason@,
            load_records,
        ),
{
    let headers = match load_data_from_csv(&file.content, false) {
        Ok((names, _)) => Ok(names),
        Err(error) => Err(error),
    };
    let records = if load_records {
        match load_data_from_csv(&file.content, true) {
            Ok((_, rows)) => Ok(rows),
            Err(error) => Err(error),
        }
    } else {
        let none: Vec<Vec<String>> = Vec::new();
        assert(record_texts(none@) =~= Seq::empty());
        Ok(none)
    };
    FileReading { name: file.name.clone(), headers, records }
}

/// Tells whether the files stand in the order of their names.
pub fn names_in_order(files: &Vec<FileReading>) -> (r: bool)
    ensures
        r == in_order(file_names(file_views(files@))),
{
    let ghost ns = file_names(file_views(files@));
    let mut i: usize = 1;
    while i < files.len()
        invariant
            1 <= i,
            ns == file_names(file_views(files@)),
            forall|a: int, b: int| 0 <= a < b < i && b < ns.len() ==> !lex_lt(ns[b], ns[a]),
        decreases files.len() - i,
    {
        if lex_compare(files[i].name.as_str(), files[i - 1].name.as_str()) == Order::Before {
            assert(lex_lt(ns[i as int], ns[i - 1]));
            return false;
        }
        proof {
            assert forall|a: int, b: int| 0 <= a < b < i + 1 && b < ns.len() implies !lex_lt(
                ns[b],
                ns[a],
            ) by {
                if b == i && a < i - 1 {
                    lemma_lex_not_after_transitive(ns[a], ns[i - 1], ns[i as int]);
                }
            }
        }
        i += 1;
    }
    true
}

/// Resolves the headers as `resolve_headers` does where the files stand in
/// the order of their names, and gives nothing where they do not.
pub fn resolve_headers_in_order(
    files: &Vec<FileReading>,
    load_records: bool,
    designated: &Option<String>,
) -> (r: Option<HeaderResolution>)
    ensures
        r is Some <==> in_order(file_names(file_views(files@))),
        r matches Some(found) ==> {
            &&& found.result_view() == resolution(
                file_views(files@),
                load_records,
                name_view(*designated),
            )
            &&& found.canonical_view() == established(file_views(files@), name_view(*designated))
            &&& found.notices@ == scan_notices(
                file_views(files@),
                load_records,
                name_view(*designated),
            )
        },
{
    if names_in_order(files) {
        Some(resolve_headers(files, load_records, designated))
    } else {
        None
    }
}

/// Loads the data of a directory from its CSV files. The files are gone
/// through in the order of their names, whatever order they are given in:
/// each file is read, so that one that fails does not stop the others, and
/// the headers are resolved as `resolve_headers` does.
pub fn load_data_from_directory(
    files: &Vec<SourceFile>,
    load_records: bool,
    main_header_file: &Option<String>,
) -> (r: DirectoryLoad)
    ensures
        is_name_order(source_names(files@), r.order@),
        file_views(r.readings@) == readings_of(arranged(files@, r.order@), load_records),
        all_say_why(arranged(files@, r.order@), r.readings@, load_records),
        r.resolution.result matches Ok((headers, _)) ==> headers@.len() > 0,
        r.resolution.result_view() == resolution(
            readings_of(arranged(files@, r.order@), load_records),
            load_records,
            name_view(*main_header_file),
        ),
        r.resolution.canonical_view() == established(
            readings_of(arranged(files@, r.order@), load_records),
            name_view(*main_header_file),
        ),
        r.resolution.notices@ == scan_notices(
            readings_of(arranged(files@, r.order@), load_records),
            load_records,
            name_view(*main_header_file),
        ),
{
    let mut names: Vec<String> = Vec::new();
    let mut i: usize = 0;
    while i < files.len()
        invariant
            i <= files.len(),
            names@.len() == i,
            forall|j: int| 0 <= j < i ==> (#[trigger] names@[j])@ == files@[j].name@,
        decreases files.len() - i,
    {
        names.push(files[i].name.clone());
        i += 1;
    }
    assert(texts(names@) =~= source_names(files@));
    let order = name_order(&names);
    let ghost sorted = arranged(files@, order@);
    let mut readings: Vec<FileReading> = Vec::new();
    let mut k: usize = 0;
    while k < order.len()
        invariant
            k <= order.len(),
            is_name_order(source_names(files@), order@),
            sorted == arranged(files@, order@),
            readings@.len() == k,
            forall|j: int|
                0 <= j < k ==> (#[trigger] readings@[j])@ == reading_of(sorted[j], load_records),
            forall|j: int|
                0 <= j < k ==> (#[trigger] sorted[j].content matches FileContent::Unreadable(
                    reason,
                ) ==> says_why(readings@[j], reason@, load_records)),
        decreases order.len() - k,
    {
        assert(order@[k as int] < files@.len());
        readings.push(read_source(&files[order[k]], load_records));
        k += 1;
    }
    proof {
        assert(file_views(readings@) =~= readings_of(sorted, load_records));
        assert(file_names(file_views(readings@)) =~= arranged_names(
            source_names(files@),
            order@,
        ));
    }
    let resolution = resolve_headers(&readings, load_records, main_header_file);
    DirectoryLoad { order, readings, resolution }
}

} // verus!
