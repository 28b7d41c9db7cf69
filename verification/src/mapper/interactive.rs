//! Import from entries typed by hand.

use crate::client::{Message, MessageView};
use crate::mapper::{Layout, LayoutView};
use crate::text::{comma_list, join_fields, pairs, split_fields, split_line, texts, trim_text, trimmed};
use crate::time::{read_seconds, read_utc_seconds};
use vstd::prelude::*;
use vstd::string::StringExecFns;

verus! {

/// Takes entries typed at a prompt: a value, a timestamp, and the values of
/// the tags with commas between them.
#[derive(Debug)]
pub struct Interactive {}

/// What one round of prompting gave.
#[derive(Debug)]
pub enum Prompted {
    /// The three answers as they were typed: value, timestamp, tag values.
    Entry(String, String, String),
    /// The input has ended.
    Closed,
    /// An answer could not be read. Holds the reason.
    Failed(String),
}

/// What to do after one round of prompting.
#[derive(Debug)]
pub enum Step {
    /// Send this message to the writer, then prompt again.
    Send(Message),
    /// Nothing to send this time: report why, then prompt again.
    Again(String),
    /// Stop prompting: the import is over, and it went well.
    Finish,
}

/// What `Prompted` holds, as plain values.
pub enum PromptedView {
    Entry(Seq<char>, Seq<char>, Seq<char>),
    Closed,
    Failed(Seq<char>),
}

/// What a `Step` holds, as plain values.
pub enum StepView {
    Send(MessageView),
    Again(Seq<char>),
    Finish,
}

impl View for Prompted {
    type V = PromptedView;

    open spec fn view(&self) -> PromptedView {
        match self {
            Prompted::Entry(measure, time, tags) => PromptedView::Entry(measure@, time@, tags@),
            Prompted::Closed => PromptedView::Closed,
            Prompted::Failed(reason) => PromptedView::Failed(reason@),
        }
    }
}

impl View for Step {
    type V = StepView;

    open spec fn view(&self) -> StepView {
        match self {
            Step::Send(message) => StepView::Send(message@),
            Step::Again(report) => StepView::Again(report@),
            Step::Finish => StepView::Finish,
        }
    }
}

/// The tag names that are not empty, in their order.
pub open spec fn named_tags(tags: Seq<Seq<char>>) -> Seq<Seq<char>> {
    tags.filter(|tag: Seq<char>| tag.len() > 0)
}

/// Names and values paired by position, as far as both reach: what is left
/// over of the longer list is dropped.
pub open spec fn zipped(names: Seq<Seq<char>>, values: Seq<Seq<char>>) -> Seq<
    (Seq<char>, Seq<char>),
> {
    Seq::new(
        if names.len() <= values.len() {
            names.len()
        } else {
            values.len()
        },
        |i: int| (names[i], values[i]),
    )
}

/// The three answers of an entry: value and timestamp without the white
/// space around them, and the tag values cut at the commas.
pub open spec fn entry_input(measure: Seq<char>, time: Seq<char>, tags: Seq<char>) -> (
    Seq<char>,
    Seq<char>,
    Seq<Seq<char>>,
) {
    (trimmed(measure), trimmed(time), split_fields(trimmed(tags), ','))
}

/// The message of an entry whose timestamp reads as `seconds`: the field is
/// named by the layout's measure, and the tag values go to the layout's
/// non-empty tag names by position.
pub open spec fn entry_message(
    layout: LayoutView,
    measure: Seq<char>,
    seconds: int,
    tags: Seq<Seq<char>>,
) -> MessageView {
    MessageView {
        time: seconds,
        value: (layout.measure, measure),
        tags: zipped(named_tags(layout.tags), tags),
    }
}

/// The message of an entry, if its timestamp reads under the layout's
/// format, and else the reason why it does not.
pub open spec fn convert_entry(
    layout: LayoutView,
    input: (Seq<char>, Seq<char>, Seq<Seq<char>>),
) -> Result<MessageView, Seq<char>> {
    match read_seconds(input.1, layout.tformat) {
        Ok(seconds) => Ok(entry_message(layout, input.0, seconds as int, input.2)),
        Err(why) => Err(why),
    }
}

/// What follows one round of prompting: the end of the input ends the
/// import; an answer that could not be read, or a timestamp that does not
/// read, costs this entry only, and is reported with its reason; any other
/// entry is sent.
pub open spec fn next_step(layout: LayoutView, prompted: PromptedView) -> StepView {
    match prompted {
        PromptedView::Closed => StepView::Finish,
        PromptedView::Failed(reason) => StepView::Again("Failure: "@ + reason),
        PromptedView::Entry(measure, time, tags) => match convert_entry(
            layout,
            entry_input(measure, time, tags),
        ) {
            Ok(message) => StepView::Send(message),
            Err(why) => StepView::Again("Parsing time failed: "@ + why),
        },
    }
}

impl Interactive {
    /// The three prompts, each with the layout's names as a hint.
    pub fn prompts(&self, layout: &Layout) -> (prompts: (String, String, String))
        ensures
            prompts.0@ == "Measurement ["@ + layout@.measure + "]: "@,
            prompts.1@ == "Time ["@ + layout@.time + "]["@ + layout@.tformat + "]: "@,
            prompts.2@ == "Tags ["@ + join_fields(layout@.tags, ',') + "]: "@,
    {
        let mut measure = String::from_str("Measurement [");
        measure.append(layout.measure.as_str());
        measure.append("]: ");
        let mut time = String::from_str("Time [");
        time.append(layout.time.as_str());
        time.append("][");
        time.append(layout.tformat.as_str());
        time.append("]: ");
        let mut tags = String::from_str("Tags [");
        tags.append(comma_list(&layout.tags).as_str());
        tags.append("]: ");
        (measure, time, tags)
    }

    /// Return the user input tuple made of the three answers.
    pub fn read_input(&self, measure: &str, time: &str, tags: &str) -> (input: (
        String,
        String,
        Vec<String>,
    ))
        ensures
            (input.0@, input.1@, texts(input.2@)) == entry_input(measure@, time@, tags@),
    {
        (trim_text(measure).to_owned(), trim_text(time).to_owned(), split_line(trim_text(tags), ','))
    }

    /// Gives the tag values to the layout's non-empty tag names, by position.
    pub fn pair_tags(&self, layout: &Layout, values: &Vec<String>) -> (tags: Vec<(String, String)>)
        ensures
            pairs(tags@) == zipped(named_tags(layout@.tags), texts(values@)),
    {
        let ghost names = layout@.tags;
        let ghost given = texts(values@);
        let mut tags: Vec<(String, String)> = Vec::new();
        let mut k: usize = 0;
        proof {
            reveal(Seq::filter);
            assert(names.take(0) == Seq::<Seq<char>>::empty());
            assert(pairs(tags@) == zipped(named_tags(names.take(0)), given));
        }
        while k < layout.tags.len() && tags.len() < values.len()
            invariant
                k <= layout.tags.len(),
                names == layout@.tags,
                given == texts(values@),
                tags@.len() <= values@.len(),
                tags@.len() == named_tags(names.take(k as int)).len() || (tags@.len()
                    == values@.len() && values@.len() <= named_tags(names.take(k as int)).len()),
                pairs(tags@) == zipped(named_tags(names.take(k as int)), given),
            decreases layout.tags.len() - k,
        {
            proof {
                reveal(Seq::filter);
                assert(names.take(k + 1).drop_last() == names.take(k as int));
                assert(names.take(k + 1).last() == names[k as int]);
            }
            if !layout.tags[k].as_str().is_empty() {
                let ghost before = tags@;
                let j = tags.len();
                tags.push((layout.tags[k].clone(), values[j].clone()));
                proof {
                    assert(pairs(tags@) == pairs(before).push((names[k as int], given[j as int])));
                    assert(pairs(tags@) == zipped(named_tags(names.take(k + 1)), given));
                }
            }
            k = k + 1;
        }
        proof {
            lemma_named_tags_grow(names, k as int);
            if k == layout.tags.len() {
                assert(names.take(k as int) == names);
            }
            assert(zipped(named_tags(names.take(k as int)), given) =~= zipped(
                named_tags(names),
                given,
            ));
        }
        tags
    }

    /// The message of an entry, given what the reading of its timestamp
    /// gave. There is one exactly if the timestamp was read; else the
    /// reason is handed on.
    pub fn entry(
        &self,
        layout: &Layout,
        measure: String,
        seconds: Result<i64, String>,
        tags: &Vec<String>,
    ) -> (message: Result<Message, String>)
        ensures
            match message {
                Ok(message) => seconds matches Ok(read) && message@ == entry_message(
                    layout@,
                    measure@,
                    read as int,
                    texts(tags@),
                ),
                Err(why) => seconds matches Err(reason) && why@ == reason@,
            },
    {
        match seconds {
            Ok(read) => {
                let tags = self.pair_tags(layout, tags);
                Ok(Message::new(read, (layout.measure.clone(), measure), tags))
            },
            Err(reason) => Err(reason),
        }
    }

    /// The message of an entry, if its timestamp reads under the layout's
    /// format, and else the reason why it does not.
    pub fn convert(&self, layout: &Layout, input: (String, String, Vec<String>)) -> (message:
        Result<Message, String>)
        ensures
            match message {
                Ok(message) => convert_entry(layout@, (input.0@, input.1@, texts(input.2@)))
                    == Ok::<MessageView, Seq<char>>(message@),
                Err(why) => convert_entry(layout@, (input.0@, input.1@, texts(input.2@)))
                    == Err::<MessageView, Seq<char>>(why@),
            },
    {
        let seconds = read_utc_seconds(input.1.as_str(), layout.tformat.as_str());
        self.entry(layout, input.0, seconds, &input.2)
    }

    /// Decides what follows one round of prompting.
    pub fn step(&self, layout: &Layout, prompted: Prompted) -> (step: Step)
        ensures
            step@ == next_step(layout@, prompted@),
    {
        match prompted {
            Prompted::Closed => Step::Finish,
            Prompted::Failed(reason) => {
                let mut report = String::from_str("Failure: ");
                report.append(reason.as_str());
                Step::Again(report)
            },
            Prompted::Entry(measure, time, tags) => {
                let input = self.read_input(measure.as_str(), time.as_str(), tags.as_str());
                match self.convert(layout, input) {
                    Ok(message) => Step::Send(message),
                    Err(why) => {
                        let mut report = String::from_str("Parsing time failed: ");
                        report.append(why.as_str());
                        Step::Again(report)
                    },
                }
            },
        }
    }
}

/// Every message of an entry follows the layout: its field bears the
/// layout's measure as its name, and it has no more tags than the layout
/// names, nor more than there are tag values.
pub proof fn lemma_entry_follows_layout(
    layout: LayoutView,
    measure: Seq<char>,
    seconds: int,
    tags: Seq<Seq<char>>,
)
    ensures
        entry_message(layout, measure, seconds, tags).value == (layout.measure, measure),
        entry_message(layout, measure, seconds, tags).tags.len() <= layout.tags.len(),
        entry_message(layout, measure, seconds, tags).tags.len() <= tags.len(),
{
    layout.tags.lemma_filter_len(|tag: Seq<char>| tag.len() > 0);
}

/// The non-empty names among the first `k` names are the first of the
/// non-empty names among all of them.
proof fn lemma_named_tags_grow(names: Seq<Seq<char>>, k: int)
    requires
        0 <= k <= names.len(),
    ensures
        named_tags(names.take(k)).len() <= named_tags(names).len(),
        forall|i: int|
            0 <= i < named_tags(names.take(k)).len() ==> named_tags(names.take(k))[i]
                == named_tags(names)[i],
    decreases names.len() - k,
{
    reveal(Seq::filter);
    if k < names.len() {
        lemma_named_tags_grow(names, k + 1);
        assert(names.take(k + 1).drop_last() == names.take(k));
    } else {
        assert(names.take(k) == names);
    }
}

} // verus!
