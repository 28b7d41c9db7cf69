//! Import from delimited text.

use crate::client::{Message, MessageView};
use crate::error::{ConvertError, ConvertResult, ErrorView};
use crate::mapper::{
    columns, is_first_match, lemma_named_columns, lemma_named_columns_step, position_of,
    tag_columns, Columns, ColumnsView, Layout, LayoutView,
};
use crate::text::{pairs, split_fields, split_line, texts};
use crate::time::{read_seconds, read_utc_seconds};
use vstd::prelude::*;
use vstd::string::StringExecFns;

verus! {

/// One line of a source: its text, or why it could not be read.
pub type Line = Result<String, String>;

/// One source location after the attempt to open it: its name, and its
/// lines or why it could not be opened.
#[derive(Debug)]
pub struct Source {
    pub name: String,
    pub lines: Result<Vec<Line>, String>,
}

/// What came of one source: the messages of its rows, in the order of the
/// rows, and the failure that ended the import of this source, if one did.
#[derive(Debug)]
pub struct Imported {
    pub messages: Vec<Message>,
    pub failure: Option<ConvertError>,
}

/// A line, as plain values.
pub type LineView = Result<Seq<char>, Seq<char>>;

/// What a `Source` holds, as plain values.
pub struct SourceView {
    pub name: Seq<char>,
    pub lines: Result<Seq<LineView>, Seq<char>>,
}

/// What `Imported` holds, as plain values.
pub struct ImportedView {
    pub messages: Seq<MessageView>,
    pub failure: Option<ErrorView>,
}

/// Lines as plain values.
pub open spec fn line_views(lines: Seq<Line>) -> Seq<LineView> {
    lines.map_values(
        |line: Line|
            match line {
                Ok(text) => Ok(text@),
                Err(reason) => Err(reason@),
            },
    )
}

/// Messages as plain values.
pub open spec fn message_views(messages: Seq<Message>) -> Seq<MessageView> {
    messages.map_values(|message: Message| message@)
}

impl View for Source {
    type V = SourceView;

    open spec fn view(&self) -> SourceView {
        SourceView {
            name: self.name@,
            lines: match self.lines {
                Ok(lines) => Ok(line_views(lines@)),
                Err(reason) => Err(reason@),
            },
        }
    }
}

impl View for Imported {
    type V = ImportedView;

    open spec fn view(&self) -> ImportedView {
        ImportedView {
            messages: message_views(self.messages@),
            failure: match self.failure {
                Some(e) => Some(e@),
                None => None,
            },
        }
    }
}

/// Reads delimited text: the delimiter can be chosen, leading rows can be
/// skipped, and only the columns that the layout names are taken.
#[derive(Debug)]
pub struct Csv {
    files: Vec<String>,
    batch: bool,
    delimiter: char,
    first_row: usize,
}

/// What a `Csv` holds, as plain values.
pub struct CsvView {
    pub files: Seq<Seq<char>>,
    pub batch: bool,
    pub delimiter: char,
    pub first_row: nat,
}

impl View for Csv {
    type V = CsvView;

    closed spec fn view(&self) -> CsvView {
        CsvView {
            files: texts(self.files@),
            batch: self.batch,
            delimiter: self.delimiter,
            first_row: self.first_row as nat,
        }
    }
}

/// Whether every column that is asked for exists in the row.
pub open spec fn row_in_range(found: ColumnsView, row: Seq<Seq<char>>) -> bool {
    &&& 0 <= found.measure < row.len()
    &&& 0 <= found.time < row.len()
    &&& forall|k: int| 0 <= k < found.tags.len() ==> 0 <= (#[trigger] found.tags[k]).1 < row.len()
}

/// The tags of a row: each tag that the header holds, under its own name,
/// with the field of its column.
pub open spec fn row_tags(tags: Seq<(Seq<char>, int)>, row: Seq<Seq<char>>) -> Seq<
    (Seq<char>, Seq<char>),
> {
    tags.map_values(|found: (Seq<char>, int)| (found.0, row[found.1]))
}

/// The message of a row whose timestamp reads as `seconds`: the field is
/// named by the layout's measure and valued by the measure's column, the tags
/// are those of `row_tags`.
pub open spec fn row_message(
    measure: Seq<char>,
    found: ColumnsView,
    row: Seq<Seq<char>>,
    seconds: int,
) -> MessageView {
    MessageView {
        time: seconds,
        value: (measure, row[found.measure]),
        tags: row_tags(found.tags, row),
    }
}

impl CsvView {
    /// The header line: the line behind the rows to skip. It must exist and
    /// must have been read.
    pub open spec fn header_line(self, lines: Seq<LineView>) -> Result<Seq<char>, ErrorView> {
        if self.first_row >= lines.len() {
            Err(ErrorView::Import("Header not found"@))
        } else {
            match lines[self.first_row as int] {
                Ok(text) => Ok(text),
                Err(reason) => Err(ErrorView::Import(reason)),
            }
        }
    }

    /// Whether these lines are all that an import needs of their source: the
    /// last of them could not be read, and it is the header line or a line
    /// behind it. A line in front of the header is passed over, read or not.
    pub open spec fn read_enough(self, lines: Seq<LineView>) -> bool {
        lines.len() > self.first_row && lines.last() is Err
    }

    /// The columns that the layout asks for, resolved against the header
    /// line.
    pub open spec fn read_columns(self, layout: LayoutView, lines: Seq<LineView>) -> Result<
        ColumnsView,
        ErrorView,
    > {
        match self.header_line(lines) {
            Ok(text) => layout.resolve(split_fields(text, self.delimiter)),
            Err(e) => Err(e),
        }
    }

    /// The message of one data line, if it yields one: the line must hold
    /// every column asked for, and its timestamp must read under the
    /// layout's format.
    pub open spec fn convert_row(self, layout: LayoutView, found: ColumnsView, line: Seq<char>)
        -> Option<MessageView> {
        let row = split_fields(line, self.delimiter);
        if !row_in_range(found, row) {
            None
        } else {
            match read_seconds(row[found.time], layout.tformat) {
                Ok(seconds) => Some(row_message(layout.measure, found, row, seconds as int)),
                Err(_) => None,
            }
        }
    }

    /// What comes of the data lines, taken in order: a line that yields no
    /// message is passed over; a line that could not be read ends the import
    /// of this source, and what came before it stays.
    pub open spec fn rows(self, layout: LayoutView, found: ColumnsView, lines: Seq<LineView>)
        -> ImportedView
        decreases lines.len(),
    {
        if lines.len() == 0 {
            ImportedView { messages: Seq::empty(), failure: None }
        } else {
            match lines[0] {
                Err(reason) => ImportedView {
                    messages: Seq::empty(),
                    failure: Some(ErrorView::Import(reason)),
                },
                Ok(text) => {
                    let rest = self.rows(layout, found, lines.drop_first());
                    match self.convert_row(layout, found, text) {
                        Some(message) => ImportedView {
                            messages: seq![message] + rest.messages,
                            failure: rest.failure,
                        },
                        None => rest,
                    }
                },
            }
        }
    }

    /// What comes of the lines of one source: nothing but the failure where
    /// the header cannot be resolved, else what comes of the lines behind
    /// the header.
    pub open spec fn import_lines(self, layout: LayoutView, lines: Seq<LineView>) -> ImportedView {
        match self.read_columns(layout, lines) {
            Err(e) => ImportedView { messages: Seq::empty(), failure: Some(e) },
            Ok(found) => self.rows(layout, found, lines.skip(self.first_row as int + 1)),
        }
    }

    /// What comes of one source: nothing but the failure where it could not
    /// be opened, else what comes of its lines.
    pub open spec fn import_source(self, layout: LayoutView, source: SourceView) -> ImportedView {
        match source.lines {
            Err(reason) => ImportedView {
                messages: Seq::empty(),
                failure: Some(
                    ErrorView::Import("Failed to import file "@ + source.name + " : "@ + reason),
                ),
            },
            Ok(lines) => self.import_lines(layout, lines),
        }
    }
}

impl Csv {
    pub fn new(files: Vec<String>, batch: bool, del: char, row: usize) -> (csv: Csv)
        ensures
            csv@ == (CsvView {
                files: texts(files@),
                batch,
                delimiter: del,
                first_row: row as nat,
            }),
    {
        Csv { files: files, batch: batch, delimiter: del, first_row: row }
    }

    /// The source locations to import from.
    pub fn files(&self) -> (files: &Vec<String>)
        ensures
            texts(files@) == self@.files,
    {
        &self.files
    }

    /// Whether batch mode was asked for.
    pub fn batch(&self) -> (batch: bool)
        ensures
            batch == self@.batch,
    {
        self.batch
    }

    /// The character between two fields of a line.
    pub fn delimiter(&self) -> (delimiter: char)
        ensures
            delimiter == self@.delimiter,
    {
        self.delimiter
    }

    /// The number of lines in front of the header row.
    pub fn first_row(&self) -> (row: usize)
        ensures
            row == self@.first_row,
    {
        self.first_row
    }

    /// Return the position of some field in the header row or not found error.
    pub fn find_pos(&self, name: &str, data: &[String]) -> (found: ConvertResult<usize>)
        ensures
            match found {
                Ok(i) => is_first_match(texts(data@), name@, i as int),
                Err(e) => !texts(data@).contains(name@) && e@ == ErrorView::NotFound(name@),
            },
    {
        match position_of(data, name) {
            Some(i) => Ok(i),
            None => Err(ConvertError::NotFound(String::from_str(name))),
        }
    }

    /// Return an array of column positions corresponding to the names
    /// or an empty list if nothing is found.
    pub fn find_positions(&self, names: &[String], data: &[String]) -> (found: Vec<usize>)
        ensures
            columns(found@) == tag_columns(texts(names@), texts(data@)),
            found@.len() <= names@.len(),
    {
        let ghost tags = texts(names@);
        let ghost header = texts(data@);
        let mut found: Vec<usize> = Vec::new();
        let mut k: usize = 0;
        assert(columns(found@) == tag_columns(tags.take(0), header));
        while k < names.len()
            invariant
                k <= names.len(),
                tags == texts(names@),
                header == texts(data@),
                columns(found@) == tag_columns(tags.take(k as int), header),
            decreases names.len() - k,
        {
            proof {
                lemma_named_columns_step(tags, header, k as int);
            }
            let ghost before = found@;
            match position_of(data, names[k].as_str()) {
                Some(column) => {
                    found.push(column);
                    assert(columns(found@) == columns(before).push(column as int));
                },
                None => {},
            }
            k = k + 1;
        }
        proof {
            assert(tags.take(k as int) == tags);
            lemma_named_columns(tags, header);
        }
        found
    }

    /// Split a line with the delimiter.
    pub fn split(&self, line: &str) -> (fields: Vec<String>)
        ensures
            texts(fields@) == split_fields(line@, self@.delimiter),
    {
        split_line(line, self.delimiter)
    }

    /// Skip initial rows and return header line if found.
    pub fn skip(&self, lines: &[Line]) -> (header: ConvertResult<String>)
        ensures
            match header {
                Ok(text) => self@.header_line(line_views(lines@)) == Ok::<Seq<char>, ErrorView>(
                    text@,
                ),
                Err(e) => self@.header_line(line_views(lines@)) == Err::<Seq<char>, ErrorView>(
                    e@,
                ),
            },
    {
        if self.first_row >= lines.len() {
            return Err(ConvertError::Import(String::from_str("Header not found")));
        }
        match &lines[self.first_row] {
            Ok(text) => Ok(text.clone()),
            Err(reason) => Err(ConvertError::Import(reason.clone())),
        }
    }

    /// Whether the lines read so far are all that an import needs of their
    /// source, so that the reading can end.
    pub fn read_enough(&self, lines: &[Line]) -> (enough: bool)
        ensures
            enough == self@.read_enough(line_views(lines@)),
    {
        let n = lines.len();
        if n > self.first_row {
            assert(line_views(lines@).last() == line_views(lines@)[n - 1]);
            lines[n - 1].is_err()
        } else {
            false
        }
    }

    /// Search for the columns of measure, time and tags, keeping the name of
    /// each tag beside its column.
    pub fn read_columns(&self, layout: &Layout, lines: &[Line]) -> (found: ConvertResult<Columns>)
        ensures
            match found {
                Ok(found) => self@.read_columns(layout@, line_views(lines@)) == Ok::<
                    ColumnsView,
                    ErrorView,
                >(found@),
                Err(e) => self@.read_columns(layout@, line_views(lines@)) == Err::<
                    ColumnsView,
                    ErrorView,
                >(e@),
            },
    {
        let text = match self.skip(lines) {
            Ok(text) => text,
            Err(e) => {
                return Err(e);
            },
        };
        let header = self.split(text.as_str());
        layout.resolve(header.as_slice())
    }

    /// Search for the column positions of measure, time and tags columns.
    pub fn read_header(&self, layout: &Layout, lines: &[Line]) -> (header: ConvertResult<
        (usize, usize, Vec<usize>),
    >)
        ensures
            match header {
                Ok((measure, time, tags)) => {
                    &&& self@.read_columns(layout@, line_views(lines@)) matches Ok(found)
                    &&& measure == found.measure
                    &&& time == found.time
                    &&& columns(tags@) == found.tag_indices()
                },
                Err(e) => self@.read_columns(layout@, line_views(lines@)) == Err::<
                    ColumnsView,
                    ErrorView,
                >(e@),
            },
    {
        match self.read_columns(layout, lines) {
            Ok(found) => Ok((found.measure, found.time, found.tag_indices())),
            Err(e) => Err(e),
        }
    }

    /// The message of a row, given what the reading of its timestamp gave.
    /// There is one exactly if the row holds every column asked for and the
    /// timestamp was read.
    pub fn row_message(
        &self,
        layout: &Layout,
        found: &Columns,
        row: &[String],
        seconds: Option<i64>,
    ) -> (message: Option<Message>)
        ensures
            match message {
                Some(message) => {
                    &&& row_in_range(found@, texts(row@))
                    &&& seconds matches Some(read)
                    &&& message@ == row_message(layout@.measure, found@, texts(row@), read as int)
                },
                None => !row_in_range(found@, texts(row@)) || seconds is None,
            },
    {
        let read = match seconds {
            Some(read) => read,
            None => {
                return None;
            },
        };
        if found.measure >= row.len() || found.time >= row.len() {
            return None;
        }
        let ghost fields = texts(row@);
        let mut tags: Vec<(String, String)> = Vec::new();
        let mut k: usize = 0;
        assert(pairs(tags@) == row_tags(found@.tags.take(0), fields));
        while k < found.tags.len()
            invariant
                k <= found.tags.len(),
                fields == texts(row@),
                forall|j: int| 0 <= j < k ==> 0 <= (#[trigger] found@.tags[j]).1 < fields.len(),
                pairs(tags@) == row_tags(found@.tags.take(k as int), fields),
            decreases found.tags.len() - k,
        {
            let column = found.tags[k].1;
            if column >= row.len() {
                assert(found@.tags[k as int].1 == column);
                return None;
            }
            let ghost before = tags@;
            tags.push((found.tags[k].0.clone(), row[column].clone()));
            proof {
                assert(found@.tags[k as int] == (found.tags@[k as int].0@, column as int));
                assert(found@.tags.take(k + 1) == found@.tags.take(k as int).push(
                    found@.tags[k as int],
                ));
                assert(pairs(tags@) == pairs(before).push(
                    (found.tags@[k as int].0@, fields[column as int]),
                ));
            }
            k = k + 1;
        }
        assert(found@.tags.take(k as int) == found@.tags);
        let value = (layout.measure.clone(), row[found.measure].clone());
        Some(Message::new(read, value, tags))
    }

    /// The message of one data line, if it yields one. The line is split at
    /// the delimiter; it yields a message if it holds every column asked for
    /// and its timestamp reads under the layout's format.
    pub fn convert_row(&self, layout: &Layout, found: &Columns, line: &str) -> (message: Option<
        Message,
    >)
        ensures
            match message {
                Some(message) => self@.convert_row(layout@, found@, line@) == Some(message@),
                None => self@.convert_row(layout@, found@, line@) is None,
            },
    {
        let row = self.split(line);
        if found.time >= row.len() {
            return None;
        }
        let seconds = match read_utc_seconds(
            row[found.time].as_str(),
            layout.tformat.as_str(),
        ) {
            Ok(read) => Some(read),
            Err(_) => None,
        };
        self.row_message(layout, found, row.as_slice(), seconds)
    }

    /// Imports the lines of one source: resolves the header, then turns each
    /// line behind it into a message. A line that yields no message is
    /// passed over. A line that could not be read ends the import, and what
    /// came before it stays.
    pub fn import_lines(&self, layout: &Layout, lines: &[Line]) -> (imported: Imported)
        ensures
            imported@ == self@.import_lines(layout@, line_views(lines@)),
    {
        let found = match self.read_columns(layout, lines) {
            Ok(found) => found,
            Err(e) => {
                let messages: Vec<Message> = Vec::new();
                assert(message_views(messages@) == Seq::<MessageView>::empty());
                return Imported { messages, failure: Some(e) };
            },
        };
        let ghost all = line_views(lines@);
        let ghost wanted = self@.rows(layout@, found@, all.skip(self.first_row as int + 1));
        assert(self@.header_line(all) is Ok);
        assert(self.first_row < lines.len());
        let mut messages: Vec<Message> = Vec::new();
        let mut i: usize = self.first_row + 1;
        assert(message_views(messages@) + wanted.messages == wanted.messages);
        while i < lines.len()
            invariant
                self.first_row < i <= lines.len(),
                all == line_views(lines@),
                self@.read_columns(layout@, all) == Ok::<ColumnsView, ErrorView>(found@),
                wanted == self@.rows(layout@, found@, all.skip(self.first_row as int + 1)),
                wanted.messages == message_views(messages@) + self@.rows(
                    layout@,
                    found@,
                    all.skip(i as int),
                ).messages,
                wanted.failure == self@.rows(layout@, found@, all.skip(i as int)).failure,
            decreases lines.len() - i,
        {
            proof {
                assert(all.skip(i as int)[0] == all[i as int]);
                assert(all.skip(i as int).drop_first() == all.skip(i + 1));
            }
            let ghost rest = self@.rows(layout@, found@, all.skip(i + 1));
            match &lines[i] {
                Err(reason) => {
                    let failure = Some(ConvertError::Import(reason.clone()));
                    proof {
                        assert(all[i as int] == Err::<Seq<char>, Seq<char>>(reason@));
                        assert(self@.rows(layout@, found@, all.skip(i as int)).messages
                            == Seq::<MessageView>::empty());
                        assert(message_views(messages@) + Seq::<MessageView>::empty()
                            == message_views(messages@));
                    }
                    return Imported { messages, failure };
                },
                Ok(text) => {
                    let ghost before = messages@;
                    match self.convert_row(layout, &found, text.as_str()) {
                        Some(message) => {
                            messages.push(message);
                            proof {
                                assert(message_views(messages@) == message_views(before).push(
                                    message@,
                                ));
                                assert(message_views(before) + (seq![message@] + rest.messages)
                                    == message_views(messages@) + rest.messages);
                            }
                        },
                        None => {},
                    }
                },
            }
            i = i + 1;
        }
        proof {
            assert(message_views(messages@) + Seq::<MessageView>::empty() == message_views(
                messages@,
            ));
        }
        Imported { messages, failure: None }
    }

    /// Imports one source: reports why it could not be opened, or imports
    /// its lines.
    pub fn import_source(&self, layout: &Layout, source: &Source) -> (imported: Imported)
        ensures
            imported@ == self@.import_source(layout@, source@),
    {
        match &source.lines {
            Ok(lines) => self.import_lines(layout, lines.as_slice()),
            Err(reason) => {
                let mut text = String::from_str("Failed to import file ");
                text.append(source.name.as_str());
                text.append(" : ");
                text.append(reason.as_str());
                let messages: Vec<Message> = Vec::new();
                assert(message_views(messages@) == Seq::<MessageView>::empty());
                Imported { messages, failure: Some(ConvertError::Import(text)) }
            },
        }
    }

    /// Imports the sources one by one, in the order given. Each source is
    /// taken by itself: what fails for one has no bearing on the others.
    pub fn import(&self, layout: &Layout, sources: &[Source]) -> (imported: Vec<Imported>)
        ensures
            imported@.len() == sources@.len(),
            forall|i: int|
                0 <= i < sources@.len() ==> (#[trigger] imported@[i])@ == self@.import_source(
                    layout@,
                    sources@[i]@,
                ),
    {
        let mut imported: Vec<Imported> = Vec::new();
        let mut i: usize = 0;
        while i < sources.len()
            invariant
                i <= sources.len(),
                imported@.len() == i,
                forall|j: int|
                    0 <= j < i ==> (#[trigger] imported@[j])@ == self@.import_source(
                        layout@,
                        sources@[j]@,
                    ),
            decreases sources.len() - i,
        {
            imported.push(self.import_source(layout, &sources[i]));
            i = i + 1;
        }
        imported
    }
}

/// What a row holds reaches the database as it stands in the row. Take a
/// data line that yields a message, and the record that the message is
/// rendered into: the record's field bears the layout's measure as its name
/// and the text of the measure's column as its value; its tags are those
/// that the header holds, each under its own name and with the text of its
/// own column; and its instant is what was read from the timestamp's column,
/// counted in nanoseconds in place of seconds.
pub proof fn lemma_row_reaches_record(
    csv: CsvView,
    layout: LayoutView,
    found: ColumnsView,
    line: Seq<char>,
    series: Seq<char>,
)
    requires
        csv.convert_row(layout, found, line) is Some,
    ensures
        ({
            let row = split_fields(line, csv.delimiter);
            let message = csv.convert_row(layout, found, line)->0;
            let record = message.record(series);
            &&& row_in_range(found, row)
            &&& read_seconds(row[found.time], layout.tformat) matches Ok(seconds)
            &&& message.time == seconds
            &&& record.series == series
            &&& record.field == (layout.measure, row[found.measure])
            &&& record.timestamp == seconds * 1_000_000_000
            &&& record.tags.len() == found.tags.len()
            &&& forall|k: int|
                0 <= k < found.tags.len() ==> #[trigger] record.tags[k] == (
                    found.tags[k].0,
                    row[found.tags[k].1],
                )
        }),
{
}

/// Every message that the data lines give is built on the same columns:
/// its field bears the layout's measure as its name, and it has one tag for
/// each tag column.
pub proof fn lemma_rows_follow_columns(
    csv: CsvView,
    layout: LayoutView,
    found: ColumnsView,
    lines: Seq<LineView>,
)
    ensures
        forall|k: int|
            0 <= k < csv.rows(layout, found, lines).messages.len() ==> {
                let message = #[trigger] csv.rows(layout, found, lines).messages[k];
                &&& message.value.0 == layout.measure
                &&& message.tags.len() == found.tags.len()
            },
    decreases lines.len(),
{
    if lines.len() > 0 {
        lemma_rows_follow_columns(csv, layout, found, lines.drop_first());
    }
}

/// Every message of an import follows the layout: its field bears the
/// layout's measure as its name, and it has no more tags than the layout
/// names.
pub proof fn lemma_messages_follow_layout(csv: CsvView, layout: LayoutView, lines: Seq<LineView>)
    ensures
        forall|k: int|
            0 <= k < csv.import_lines(layout, lines).messages.len() ==> {
                let message = #[trigger] csv.import_lines(layout, lines).messages[k];
                &&& message.value.0 == layout.measure
                &&& message.tags.len() <= layout.tags.len()
            },
{
    match csv.read_columns(layout, lines) {
        Ok(found) => {
            let header = split_fields(csv.header_line(lines)->Ok_0, csv.delimiter);
            lemma_named_columns(layout.tags, header);
            lemma_rows_follow_columns(csv, layout, found, lines.skip(csv.first_row as int + 1));
        },
        Err(_) => {},
    }
}

/// The data lines behind one that could not be read have no bearing on what
/// comes of the lines.
pub proof fn lemma_rows_end_at_failure(
    csv: CsvView,
    layout: LayoutView,
    found: ColumnsView,
    lines: Seq<LineView>,
    k: int,
)
    requires
        0 <= k < lines.len(),
        lines[k] is Err,
    ensures
        csv.rows(layout, found, lines.take(k + 1)) == csv.rows(layout, found, lines),
    decreases k,
{
    let read = lines.take(k + 1);
    assert(read[0] == lines[0]);
    if lines[0] is Ok {
        assert(read.drop_first() == lines.drop_first().take(k));
        lemma_rows_end_at_failure(csv, layout, found, lines.drop_first(), k - 1);
    }
}

/// Reading may end where `read_enough` says so: what comes of the lines read
/// up to there is what comes of all the lines of the source.
pub proof fn lemma_read_enough(
    csv: CsvView,
    layout: LayoutView,
    lines: Seq<LineView>,
    n: int,
)
    requires
        0 <= n <= lines.len(),
        csv.read_enough(lines.take(n)),
    ensures
        csv.import_lines(layout, lines.take(n)) == csv.import_lines(layout, lines),
{
    let read = lines.take(n);
    let first = csv.first_row as int;
    assert(read[first] == lines[first]);
    assert(read.last() == lines[n - 1]);
    if n - 1 > first {
        let behind = lines.skip(first + 1);
        assert(read.skip(first + 1) == behind.take(n - 1 - first));
        assert(behind[n - 2 - first] == lines[n - 1]);
        match csv.read_columns(layout, lines) {
            Ok(found) => {
                lemma_rows_end_at_failure(csv, layout, found, behind, n - 2 - first);
            },
            Err(_) => {},
        }
    }
}

} // verus!
