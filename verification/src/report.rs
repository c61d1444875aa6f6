//! What a command prints.
use vstd::prelude::*;
use crate::json::{Json, JsonView};
use crate::text::{self, Text};

verus! {

/// Lines in the making. A line that ends in a line feed leaves an empty one
/// behind it.
pub struct Lines {
    pub list: Vec<String>,
}

impl View for Lines {
    type V = Seq<Text>;

    open spec fn view(&self) -> Seq<Text> {
        text::views(self.list@)
    }
}

impl Lines {
    /// No lines yet.
    pub fn new() -> (r: Self)
        ensures
            r@ == Seq::<Text>::empty(),
    {
        broadcast use crate::text::group_views;

        let list: Vec<String> = Vec::new();
        Lines { list }
    }

    /// Adds a line.
    pub fn line(&mut self, line: String)
        ensures
            final(self)@ == old(self)@.push(line@),
    {
        broadcast use crate::text::group_views;

        self.list.push(line);
    }
}

/// What a command prints: lines for people, or a document for programs.
pub enum Report {
    Lines(Vec<String>),
    Document(Json),
}

/// What a command prints, as the contracts see it.
pub enum ReportView {
    Lines(Seq<Text>),
    Document(JsonView),
}

impl View for Report {
    type V = ReportView;

    open spec fn view(&self) -> ReportView {
        match self {
            Report::Lines(list) => ReportView::Lines(text::views(list@)),
            Report::Document(value) => ReportView::Document(value@),
        }
    }
}

impl Report {
    /// A report of a single line.
    pub fn single(line: String) -> (r: Self)
        ensures
            r@ == ReportView::Lines(seq![line@]),
    {
        broadcast use crate::text::group_views;

        let mut list: Vec<String> = Vec::new();
        list.push(line);
        proof {
            assert(text::views(list@) =~= seq![list@[0]@]);
        }
        Report::Lines(list)
    }
}

} // verus!
