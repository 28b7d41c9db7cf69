//! The layout that names the columns of interest, its resolution against a
//! header row, and the mappers that turn a source into messages.

pub mod csv;
pub mod interactive;

pub use self::csv::Csv;
pub use self::interactive::Interactive;
pub use crate::error::{ConvertError, ConvertResult};

use crate::error::ErrorView;
use crate::text::{copy_texts, same_text, slices, texts};
use vstd::prelude::*;
use vstd::string::StringExecFns;

verus! {

/// Names the columns that make up a record: the measured value, the tags and
/// the timestamp, with the format in which timestamps are written. The
/// columns of the value and of the timestamp must stand in a header row; a
/// tag whose column does not is left out.
#[derive(Debug)]
pub struct Layout {
    pub measure: String,
    pub tags: Vec<String>,
    pub time: String,
    pub tformat: String,
}

/// What a `Layout` holds, as plain values.
pub struct LayoutView {
    pub measure: Seq<char>,
    pub tags: Seq<Seq<char>>,
    pub time: Seq<char>,
    pub tformat: Seq<char>,
}

impl View for Layout {
    type V = LayoutView;

    open spec fn view(&self) -> LayoutView {
        LayoutView {
            measure: self.measure@,
            tags: texts(self.tags@),
            time: self.time@,
            tformat: self.tformat@,
        }
    }
}

impl Clone for Layout {
    fn clone(&self) -> (copy: Layout)
        ensures
            copy@ == self@,
    {
        Layout {
            measure: self.measure.clone(),
            tags: copy_texts(&self.tags),
            time: self.time.clone(),
            tformat: self.tformat.clone(),
        }
    }
}

impl Default for Layout {
    fn default() -> (layout: Layout)
        ensures
            layout@ == (LayoutView {
                measure: "data"@,
                tags: Seq::empty(),
                time: "timestamp"@,
                tformat: "%F %H:%M:%S"@,
            }),
    {
        let tags: Vec<String> = Vec::new();
        assert(texts(tags@) == Seq::<Seq<char>>::empty());
        Layout {
            measure: String::from_str("data"),
            tags,
            time: String::from_str("timestamp"),
            tformat: String::from_str("%F %H:%M:%S"),
        }
    }
}

/// The columns of one header row that a layout asks for: those of the
/// measured value and of the timestamp, and those of the tags that the
/// header holds, each with the name of its tag.
#[derive(Debug)]
pub struct Columns {
    pub measure: usize,
    pub time: usize,
    pub tags: Vec<(String, usize)>,
}

/// What `Columns` holds, as plain values.
pub struct ColumnsView {
    pub measure: int,
    pub time: int,
    pub tags: Seq<(Seq<char>, int)>,
}

impl View for Columns {
    type V = ColumnsView;

    open spec fn view(&self) -> ColumnsView {
        ColumnsView { measure: self.measure as int, time: self.time as int, tags: named(self.tags@) }
    }
}

impl LayoutView {
    /// The columns that this layout asks for in the given header row. The
    /// measure is looked for first, then the timestamp; the first of them
    /// that the header lacks is the failure.
    pub open spec fn resolve(self, header: Seq<Seq<char>>) -> Result<ColumnsView, ErrorView> {
        match first_match(header, self.measure) {
            None => Err(ErrorView::NotFound(self.measure)),
            Some(measure) => match first_match(header, self.time) {
                None => Err(ErrorView::NotFound(self.time)),
                Some(time) => Ok(
                    ColumnsView { measure, time, tags: named_columns(self.tags, header) },
                ),
            },
        }
    }
}

/// Whether `name` stands at index `i` of `fields` and nowhere before it.
pub open spec fn is_first_match(fields: Seq<Seq<char>>, name: Seq<char>, i: int) -> bool {
    &&& 0 <= i < fields.len()
    &&& fields[i] == name
    &&& forall|j: int| 0 <= j < i ==> fields[j] != name
}

/// The index of the first field equal to `name`, if there is one.
pub open spec fn first_match(fields: Seq<Seq<char>>, name: Seq<char>) -> Option<int> {
    if fields.contains(name) {
        Some(choose|i: int| is_first_match(fields, name, i))
    } else {
        None
    }
}

/// The tags that stand in the header, each with its column, in the order of
/// `tags`. A tag that does not stand there is left out.
pub open spec fn named_columns(tags: Seq<Seq<char>>, header: Seq<Seq<char>>) -> Seq<
    (Seq<char>, int),
>
    decreases tags.len(),
{
    if tags.len() == 0 {
        Seq::empty()
    } else {
        let before = named_columns(tags.drop_last(), header);
        match first_match(header, tags.last()) {
            Some(column) => before.push((tags.last(), column)),
            None => before,
        }
    }
}

/// The columns of the tags that stand in the header, in the order of `tags`.
pub open spec fn tag_columns(tags: Seq<Seq<char>>, header: Seq<Seq<char>>) -> Seq<int> {
    named_columns(tags, header).map_values(|found: (Seq<char>, int)| found.1)
}

/// Indices as mathematical integers.
pub open spec fn columns(indices: Seq<usize>) -> Seq<int> {
    indices.map_values(|i: usize| i as int)
}

/// Names with their columns, as plain values.
pub open spec fn named(found: Seq<(String, usize)>) -> Seq<(Seq<char>, int)> {
    found.map_values(|pair: (String, usize)| (pair.0@, pair.1 as int))
}

/// The first match is the one index that `is_first_match` accepts.
pub proof fn lemma_first_match(fields: Seq<Seq<char>>, name: Seq<char>, i: int)
    requires
        is_first_match(fields, name, i),
    ensures
        first_match(fields, name) == Some(i),
{
    assert(fields.contains(name));
    let j = choose|j: int| is_first_match(fields, name, j);
    assert(is_first_match(fields, name, j));
    assert(j == i) by {
        if j < i {
            assert(fields[j] != name);
        } else if i < j {
            assert(fields[i] != name);
        }
    }
}

/// What `first_match` gives: the index of a first match, or nothing where
/// no field reads `name`.
pub proof fn lemma_first_match_found(fields: Seq<Seq<char>>, name: Seq<char>)
    ensures
        match first_match(fields, name) {
            Some(i) => is_first_match(fields, name, i),
            None => !fields.contains(name),
        },
{
    if fields.contains(name) {
        let w = choose|w: int| 0 <= w < fields.len() && fields[w] == name;
        lemma_least_match(fields, name, w);
    }
}

/// The position of the first field that reads `name`.
pub fn position_of(data: &[String], name: &str) -> (found: Option<usize>)
    ensures
        found matches Some(i) ==> is_first_match(texts(data@), name@, i as int),
        found is None ==> !texts(data@).contains(name@),
        found == match first_match(texts(data@), name@) {
            Some(i) => Some(i as usize),
            None => None,
        },
{
    let mut i: usize = 0;
    while i < data.len()
        invariant
            i <= data.len(),
            forall|j: int| 0 <= j < i ==> texts(data@)[j] != name@,
        decreases data.len() - i,
    {
        if same_text(data[i].as_str(), name) {
            proof {
                lemma_first_match(texts(data@), name@, i as int);
            }
            return Some(i);
        }
        i = i + 1;
    }
    None
}

/// The position of the first borrowed field that reads `name`.
pub fn position_among(data: &[&str], name: &str) -> (found: Option<usize>)
    ensures
        found matches Some(i) ==> is_first_match(slices(data@), name@, i as int),
        found is None ==> !slices(data@).contains(name@),
        found == match first_match(slices(data@), name@) {
            Some(i) => Some(i as usize),
            None => None,
        },
{
    let mut i: usize = 0;
    while i < data.len()
        invariant
            i <= data.len(),
            forall|j: int| 0 <= j < i ==> slices(data@)[j] != name@,
        decreases data.len() - i,
    {
        if same_text(data[i], name) {
            proof {
                lemma_first_match(slices(data@), name@, i as int);
            }
            return Some(i);
        }
        i = i + 1;
    }
    None
}

/// How the resolution of the tags grows with one more tag.
pub proof fn lemma_named_columns_step(tags: Seq<Seq<char>>, header: Seq<Seq<char>>, k: int)
    requires
        0 <= k < tags.len(),
    ensures
        named_columns(tags.take(k + 1), header) == match first_match(header, tags[k]) {
            Some(column) => named_columns(tags.take(k), header).push((tags[k], column)),
            None => named_columns(tags.take(k), header),
        },
        tag_columns(tags.take(k + 1), header) == match first_match(header, tags[k]) {
            Some(column) => tag_columns(tags.take(k), header).push(column),
            None => tag_columns(tags.take(k), header),
        },
{
    assert(tags.take(k + 1).drop_last() == tags.take(k));
    assert(tags.take(k + 1).last() == tags[k]);
    match first_match(header, tags[k]) {
        Some(column) => {
            assert(tag_columns(tags.take(k + 1), header) == tag_columns(tags.take(k), header).push(
                column,
            ));
        },
        None => {},
    }
}

/// What the resolution of the tags gives: never more entries than tags; each
/// entry is one of the tags, with the first column of the header that bears
/// its name; and the entries keep the order of the tags. A tag is present in
/// the result exactly if its name stands in the header.
pub proof fn lemma_named_columns(tags: Seq<Seq<char>>, header: Seq<Seq<char>>)
    ensures
        named_columns(tags, header).len() <= tags.len(),
        tag_columns(tags, header).len() == named_columns(tags, header).len(),
        forall|k: int|
            0 <= k < named_columns(tags, header).len() ==> {
                let found = #[trigger] named_columns(tags, header)[k];
                &&& tags.contains(found.0)
                &&& is_first_match(header, found.0, found.1)
                &&& tag_columns(tags, header)[k] == found.1
            },
        named_columns(tags, header).map_values(|found: (Seq<char>, int)| found.0) == tags.filter(
            |tag: Seq<char>| header.contains(tag),
        ),
    decreases tags.len(),
{
    reveal(Seq::filter);
    let present = |tag: Seq<char>| header.contains(tag);
    let name = |found: (Seq<char>, int)| found.0;
    let result = named_columns(tags, header);
    if tags.len() == 0 {
        assert(result.map_values(name) == tags.filter(present));
    } else {
        let rest = tags.drop_last();
        let before = named_columns(rest, header);
        lemma_named_columns(rest, header);
        assert forall|k: int| 0 <= k < before.len() implies tags.contains(before[k].0) by {
            let j = choose|j: int| 0 <= j < rest.len() && rest[j] == before[k].0;
            assert(tags[j] == before[k].0);
        }
        match first_match(header, tags.last()) {
            Some(column) => {
                let i = choose|i: int| is_first_match(header, tags.last(), i);
                let w = choose|w: int| 0 <= w < header.len() && header[w] == tags.last();
                lemma_least_match(header, tags.last(), w);
                assert(is_first_match(header, tags.last(), i));
                assert(tags[tags.len() - 1] == tags.last());
                assert(result.map_values(name) == before.map_values(name).push(tags.last()));
            },
            None => {},
        }
        assert(result.map_values(name) == tags.filter(present));
    }
}

/// Among the fields up to a match there is a first match.
pub proof fn lemma_least_match(fields: Seq<Seq<char>>, name: Seq<char>, w: int)
    requires
        0 <= w < fields.len(),
        fields[w] == name,
    ensures
        exists|i: int| is_first_match(fields, name, i),
    decreases w,
{
    if exists|j: int| 0 <= j < w && fields[j] == name {
        let j = choose|j: int| 0 <= j < w && fields[j] == name;
        lemma_least_match(fields, name, j);
    } else {
        assert(is_first_match(fields, name, w));
    }
}

impl Layout {
    /// Returns the position of the measure column, or an error if no field
    /// bears its name.
    pub fn get_measure_col(&self, data: &[&str]) -> (found: ConvertResult<usize>)
        ensures
            match found {
                Ok(i) => is_first_match(slices(data@), self@.measure, i as int),
                Err(e) => !slices(data@).contains(self@.measure) && e@ == ErrorView::NotFound(
                    "Measure"@,
                ),
            },
    {
        match position_among(data, self.measure.as_str()) {
            Some(i) => Ok(i),
            None => Err(ConvertError::NotFound(String::from_str("Measure"))),
        }
    }

    /// Returns the position of the time column, or an error if no field
    /// bears its name.
    pub fn get_time_col(&self, data: &[&str]) -> (found: ConvertResult<usize>)
        ensures
            match found {
                Ok(i) => is_first_match(slices(data@), self@.time, i as int),
                Err(e) => !slices(data@).contains(self@.time) && e@ == ErrorView::NotFound(
                    "Timestamp"@,
                ),
            },
    {
        match position_among(data, self.time.as_str()) {
            Some(i) => Ok(i),
            None => Err(ConvertError::NotFound(String::from_str("Timestamp"))),
        }
    }

    /// Returns the columns of the tags, in the order of the tags. A tag
    /// that no field bears the name of is left out.
    pub fn get_tag_cols(&self, data: &[&str]) -> (found: Vec<usize>)
        ensures
            columns(found@) == tag_columns(self@.tags, slices(data@)),
            found@.len() <= self@.tags.len(),
    {
        let ghost tags = texts(self.tags@);
        let ghost header = slices(data@);
        let mut found: Vec<usize> = Vec::new();
        let mut k: usize = 0;
        assert(columns(found@) == tag_columns(tags.take(0), header));
        while k < self.tags.len()
            invariant
                k <= self.tags.len(),
                tags == texts(self.tags@),
                header == slices(data@),
                columns(found@) == tag_columns(tags.take(k as int), header),
            decreases self.tags.len() - k,
        {
            proof {
                lemma_named_columns_step(tags, header, k as int);
            }
            let ghost before = found@;
            match position_among(data, self.tags[k].as_str()) {
                Some(column) => {
                    found.push(column);
                    assert(columns(found@) == columns(before).push(column as int));
                },
                None => {},
            }
            k = k + 1;
        }
        proof {
            assert(tags.take(k as int) == tags);
            lemma_named_columns(tags, header);
        }
        found
    }

    /// Returns the tags that stand in the header, each with its name and its
    /// column, in the order of the tags.
    pub fn resolved_tags(&self, header: &[String]) -> (found: Vec<(String, usize)>)
        ensures
            named(found@) == named_columns(self@.tags, texts(header@)),
            found@.len() <= self@.tags.len(),
    {
        let ghost tags = texts(self.tags@);
        let ghost fields = texts(header@);
        let mut found: Vec<(String, usize)> = Vec::new();
        let mut k: usize = 0;
        assert(named(found@) == named_columns(tags.take(0), fields));
        while k < self.tags.len()
            invariant
                k <= self.tags.len(),
                tags == texts(self.tags@),
                fields == texts(header@),
                named(found@) == named_columns(tags.take(k as int), fields),
            decreases self.tags.len() - k,
        {
            proof {
                lemma_named_columns_step(tags, fields, k as int);
            }
            let ghost before = found@;
            match position_of(header, self.tags[k].as_str()) {
                Some(column) => {
                    let name = self.tags[k].clone();
                    found.push((name, column));
                    assert(named(found@) == named(before).push((tags[k as int], column as int)));
                },
                None => {},
            }
            k = k + 1;
        }
        proof {
            assert(tags.take(k as int) == tags);
            lemma_named_columns(tags, fields);
        }
        found
    }

    /// Resolves the layout against a header row, keeping the name of each
    /// tag beside its column. Where a name stands in several columns the
    /// first one counts. Fails if the measure has no column, and else if the
    /// timestamp has none; a tag without a column is left out.
    pub fn resolve(&self, header: &[String]) -> (resolved: ConvertResult<Columns>)
        ensures
            match resolved {
                Ok(found) => self@.resolve(texts(header@)) == Ok::<ColumnsView, ErrorView>(found@),
                Err(e) => self@.resolve(texts(header@)) == Err::<ColumnsView, ErrorView>(e@),
            },
    {
        let measure = match position_of(header, self.measure.as_str()) {
            Some(i) => i,
            None => {
                return Err(ConvertError::NotFound(self.measure.clone()));
            },
        };
        let time = match position_of(header, self.time.as_str()) {
            Some(i) => i,
            None => {
                return Err(ConvertError::NotFound(self.time.clone()));
            },
        };
        Ok(Columns { measure, time, tags: self.resolved_tags(header) })
    }

    /// Resolves the layout against a header row: the column of the measured
    /// value, the columns of the tags, and the column of the timestamp. Where
    /// a name stands in several columns the first one counts. Fails if the
    /// measure has no column, and else if the timestamp has none; a tag
    /// without a column is left out, so that entry `k` of the tag columns
    /// belongs to entry `k` of `named_columns`, not to tag `k` of the layout.
    pub fn apply(&self, header: &[String]) -> (resolved: ConvertResult<(usize, Vec<usize>, usize)>)
        ensures
            resolved is Ok <==> texts(header@).contains(self@.measure) && texts(header@).contains(
                self@.time,
            ),
            match resolved {
                Ok((measure, tags, time)) => {
                    &&& is_first_match(texts(header@), self@.measure, measure as int)
                    &&& is_first_match(texts(header@), self@.time, time as int)
                    &&& columns(tags@) == tag_columns(self@.tags, texts(header@))
                    &&& tags@.len() <= self@.tags.len()
                    &&& forall|k: int|
                        0 <= k < tags@.len() ==> is_first_match(
                            texts(header@),
                            named_columns(self@.tags, texts(header@))[k].0,
                            #[trigger] tags@[k] as int,
                        )
                },
                Err(e) => if !texts(header@).contains(self@.measure) {
                    e@ == ErrorView::NotFound(self@.measure)
                } else {
                    !texts(header@).contains(self@.time) && e@ == ErrorView::NotFound(self@.time)
                },
            },
    {
        let found = match self.resolve(header) {
            Ok(found) => found,
            Err(e) => {
                return Err(e);
            },
        };
        let tags = found.tag_indices();
        proof {
            let fields = texts(header@);
            lemma_first_match_found(fields, self@.measure);
            lemma_first_match_found(fields, self@.time);
            lemma_named_columns(self@.tags, fields);
            assert forall|k: int| 0 <= k < tags@.len() implies is_first_match(
                fields,
                named_columns(self@.tags, fields)[k].0,
                #[trigger] tags@[k] as int,
            ) by {
                assert(columns(tags@)[k] == tag_columns(self@.tags, fields)[k]);
            }
        }
        Ok((found.measure, tags, found.time))
    }
}

impl ColumnsView {
    /// The columns of the tags alone.
    pub open spec fn tag_indices(self) -> Seq<int> {
        self.tags.map_values(|found: (Seq<char>, int)| found.1)
    }
}

impl Columns {
    /// The columns of the tags alone.
    pub fn tag_indices(&self) -> (indices: Vec<usize>)
        ensures
            columns(indices@) == self@.tag_indices(),
    {
        let mut indices: Vec<usize> = Vec::new();
        let mut k: usize = 0;
        while k < self.tags.len()
            invariant
                k <= self.tags.len(),
                columns(indices@) == named(self.tags@.take(k as int)).map_values(
                    |found: (Seq<char>, int)| found.1,
                ),
            decreases self.tags.len() - k,
        {
            let ghost before = indices@;
            indices.push(self.tags[k].1);
            proof {
                let second = |found: (Seq<char>, int)| found.1;
                assert(self.tags@.take(k + 1) == self.tags@.take(k as int).push(self.tags@[k as int]));
                assert(named(self.tags@.take(k + 1)).map_values(second) == named(
                    self.tags@.take(k as int),
                ).map_values(second).push(self.tags@[k as int].1 as int));
                assert(columns(indices@) == columns(before).push(self.tags@[k as int].1 as int));
            }
            k = k + 1;
        }
        assert(self.tags@.take(k as int) == self.tags@);
        indices
    }
}

} // verus!
