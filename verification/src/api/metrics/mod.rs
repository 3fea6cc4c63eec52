//! Metrics in the text exposition format.
pub mod probes;
pub mod published;

use vstd::prelude::*;
use vstd::string::*;

use crate::text::{concat5, copied, join, joined, texts};

verus! {

/// A label and its value.
pub type Label = (Seq<char>, Seq<char>);

/// One line of the exposition.
#[derive(Clone, Debug, PartialEq, Eq)]
pub enum MetricItem {
    /// What a family measures.
    Help { name: String, text: String },
    /// Of which kind a family is.
    Kind { name: String, kind: String },
    Sample { name: String, labels: Vec<(String, String)>, value: String },
}

/// What a line holds.
#[verifier::ext_equal]
pub enum ItemModel {
    Help { name: Seq<char>, text: Seq<char> },
    Kind { name: Seq<char>, kind: Seq<char> },
    Sample { name: Seq<char>, labels: Seq<Label>, value: Seq<char> },
}

/// The labels of a list.
pub open spec fn labels_of(v: Seq<(String, String)>) -> Seq<Label> {
    v.map_values(|l: (String, String)| (l.0@, l.1@))
}

impl View for MetricItem {
    type V = ItemModel;

    open spec fn view(&self) -> ItemModel {
        match self {
            MetricItem::Help { name, text } => ItemModel::Help { name: name@, text: text@ },
            MetricItem::Kind { name, kind } => ItemModel::Kind { name: name@, kind: kind@ },
            MetricItem::Sample { name, labels, value } => ItemModel::Sample {
                name: name@,
                labels: labels_of(labels@),
                value: value@,
            },
        }
    }
}

/// The lines of a list.
pub open spec fn items_of(v: Seq<MetricItem>) -> Seq<ItemModel> {
    v.map_values(|i: MetricItem| i@)
}

/// A label as it is written. Values are written as they are.
pub open spec fn label_text(l: Label) -> Seq<char> {
    l.0 + "=\""@ + l.1 + "\""@
}

/// Labels as they are written.
pub open spec fn label_texts(labels: Seq<Label>) -> Seq<Seq<char>> {
    labels.map_values(|l: Label| label_text(l))
}

/// A line as it is written.
pub open spec fn item_text(i: ItemModel) -> Seq<char> {
    match i {
        ItemModel::Help { name, text } => "# HELP "@ + name + " "@ + text + "\n"@,
        ItemModel::Kind { name, kind } => "# TYPE "@ + name + " "@ + kind + "\n"@,
        ItemModel::Sample { name, labels, value } => name + "{"@ + joined(
            label_texts(labels),
            ", "@,
        ) + "} "@ + value + "\n"@,
    }
}

/// Lines as they are written.
pub open spec fn items_text(items: Seq<ItemModel>) -> Seq<char>
    decreases items.len(),
{
    if items.len() == 0 {
        seq![]
    } else {
        items_text(items.drop_last()) + item_text(items.last())
    }
}

/// Collects lines and writes them out.
pub struct MetricBuilder {
    pub items: Vec<MetricItem>,
}

impl View for MetricBuilder {
    type V = Seq<ItemModel>;

    open spec fn view(&self) -> Seq<ItemModel> {
        items_of(self.items@)
    }
}

impl MetricBuilder {
    pub fn new() -> (r: MetricBuilder)
        ensures
            r@ == Seq::<ItemModel>::empty(),
    {
        let r = MetricBuilder { items: Vec::new() };
        assert(r@ == Seq::<ItemModel>::empty());
        r
    }

    fn push(&mut self, item: MetricItem)
        ensures
            final(self)@ == old(self)@.push(item@),
    {
        self.items.push(item);
        assert(self@ == old(self)@.push(item@));
    }

    pub fn help(&mut self, name: &str, text: &str)
        ensures
            final(self)@ == old(self)@.push(ItemModel::Help { name: name@, text: text@ }),
    {
        self.push(MetricItem::Help { name: copied(name), text: copied(text) });
    }

    pub fn type_(&mut self, name: &str, kind: &str)
        ensures
            final(self)@ == old(self)@.push(ItemModel::Kind { name: name@, kind: kind@ }),
    {
        self.push(MetricItem::Kind { name: copied(name), kind: copied(kind) });
    }

    pub fn metric(&mut self, name: &str, labels: Vec<(String, String)>, value: String)
        ensures
            final(self)@ == old(self)@.push(
                ItemModel::Sample { name: name@, labels: labels_of(labels@), value: value@ },
            ),
    {
        self.push(MetricItem::Sample { name: copied(name), labels, value });
    }

    /// The lines as one text.
    pub fn build(&self) -> (r: String)
        ensures
            r@ == items_text(self@),
    {
        let ghost all = self@;
        let mut out: String = String::new();
        let mut i: usize = 0;
        assert(all.take(0) == Seq::<ItemModel>::empty());
        while i < self.items.len()
            invariant
                i <= self.items@.len(),
                all == self@,
                out@ == items_text(all.take(i as int)),
            decreases self.items@.len() - i,
        {
            assert(all[i as int] == self.items@[i as int]@);
            assert(all.take(i + 1).drop_last() == all.take(i as int));
            let line: String = written(&self.items[i]);
            out.append(line.as_str());
            i = i + 1;
        }
        assert(all.take(all.len() as int) == all);
        out
    }
}

fn written_labels(labels: &Vec<(String, String)>) -> (r: Vec<String>)
    ensures
        texts(r@) == label_texts(labels_of(labels@)),
{
    let ghost wanted = label_texts(labels_of(labels@));
    let mut out: Vec<String> = Vec::new();
    let mut i: usize = 0;
    while i < labels.len()
        invariant
            i <= labels@.len(),
            wanted == label_texts(labels_of(labels@)),
            texts(out@) == wanted.take(i as int),
        decreases labels@.len() - i,
    {
        let ghost before = texts(out@);
        let mut one: String = copied(labels[i].0.as_str());
        one.append("=\"");
        one.append(labels[i].1.as_str());
        one.append("\"");
        assert(wanted[i as int] == one@);
        out.push(one);
        assert(texts(out@) == before.push(one@));
        assert(wanted.take(i + 1) == wanted.take(i as int).push(wanted[i as int]));
        i = i + 1;
    }
    assert(wanted.take(wanted.len() as int) == wanted);
    out
}

fn written(item: &MetricItem) -> (r: String)
    ensures
        r@ == item_text(item@),
{
    match item {
        MetricItem::Help { name, text } => concat5(
            "# HELP ",
            name.as_str(),
            " ",
            text.as_str(),
            "\n",
        ),
        MetricItem::Kind { name, kind } => concat5(
            "# TYPE ",
            name.as_str(),
            " ",
            kind.as_str(),
            "\n",
        ),
        MetricItem::Sample { name, labels, value } => {
            let list: Vec<String> = written_labels(labels);
            let all: String = join(&list, ", ");
            let mut out: String = concat5(name.as_str(), "{", all.as_str(), "} ", value.as_str());
            out.append("\n");
            out
        },
    }
}

} // verus!
