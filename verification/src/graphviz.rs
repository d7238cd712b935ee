//! Rendering a tree as a Graphviz document.
//!
//! Nothing here touches the file system or launches a process. The export is
//! computed as plain values: the text of the graph description, the path it
//! belongs at, and the command that turns it into an image.

use crate::tree::BST;
use std::fmt::Debug;
use vstd::prelude::*;
use vstd::string::StringExecFns;

verus! {

/// The path of a graph file: the fixed output directory, the graph's name,
/// and the file's extension.
pub open spec fn graph_path(name: Seq<char>, extension: Seq<char>) -> Seq<char> {
    "graphviz/"@ + name + extension
}

/// One line of the graph description: a tab, the two labels joined by the
/// undirected-edge mark, and a line break.
pub open spec fn edge_line(parent: Seq<char>, child: Seq<char>) -> Seq<char> {
    "\t"@ + parent + " -- "@ + child + "\n"@
}

/// The lines for `labels`, one per pair, in order.
pub open spec fn edge_lines(labels: Seq<(Seq<char>, Seq<char>)>) -> Seq<char>
    decreases labels.len(),
{
    if labels.len() == 0 {
        Seq::empty()
    } else {
        edge_lines(labels.drop_last()) + edge_line(labels.last().0, labels.last().1)
    }
}

/// The whole graph description: the opening line, the edge lines, and the
/// closing brace with no line break after it.
pub open spec fn document(labels: Seq<(Seq<char>, Seq<char>)>) -> Seq<char> {
    "graph {\n"@ + edge_lines(labels) + "}"@
}

/// The label pairs held by a vector of string pairs.
pub open spec fn label_texts(labels: Seq<(String, String)>) -> Seq<(Seq<char>, Seq<char>)> {
    Seq::new(labels.len(), |i: int| (labels[i].0@, labels[i].1@))
}

/// The contents of a vector of strings.
pub open spec fn texts(items: Seq<String>) -> Seq<Seq<char>> {
    Seq::new(items.len(), |i: int| items[i]@)
}

/// The renderer's arguments for the graph called `name`: produce a PNG from
/// the description file, at the image path beside it.
pub open spec fn renderer_args(name: Seq<char>) -> Seq<Seq<char>> {
    seq!["-Tpng"@, graph_path(name, ".dot"@), "-o"@, graph_path(name, ".png"@)]
}

/// An export, ready to be carried out: write `text` to the file at `path`,
/// replacing what was there, then launch `program` with `args`.
pub struct Export {
    pub path: String,
    pub text: String,
    pub program: String,
    pub args: Vec<String>,
}

/// The text of `value` as `format!("{:?}", ..)` gives it, that is, as the
/// element type's `std::fmt::Debug` implementation writes it. What that text
/// is depends on that implementation, so nothing is claimed about it.
#[verifier::external_body]
fn debug_text<T: Debug>(value: &T) -> String {
    format!("{:?}", value)
}

/// The path of the graph file called `filename` with the given extension.
fn graph_file(filename: &str, extension: &str) -> (path: String)
    ensures
        path@ == graph_path(filename@, extension@),
{
    let mut path = String::from_str("graphviz/");
    path.append(filename);
    path.append(extension);
    path
}

/// The graph description with one edge line per label pair.
pub fn render(labels: &Vec<(String, String)>) -> (text: String)
    ensures
        text@ == document(label_texts(labels@)),
{
    let ghost all = label_texts(labels@);
    let mut text = String::from_str("graph {\n");
    let mut i: usize = 0;
    while i < labels.len()
        invariant
            i <= labels.len(),
            all == label_texts(labels@),
            text@ == "graph {\n"@ + edge_lines(all.take(i as int)),
        decreases labels.len() - i,
    {
        proof {
            let upto = all.take(i + 1);
            assert(upto.drop_last() =~= all.take(i as int));
            assert(upto.last() == (labels@[i as int].0@, labels@[i as int].1@));
        }
        text.append("\t");
        text.append(labels[i].0.as_str());
        text.append(" -- ");
        text.append(labels[i].1.as_str());
        text.append("\n");
        i += 1;
        assert(text@ =~= "graph {\n"@ + edge_lines(all.take(i as int)));
    }
    assert(all.take(i as int) =~= all);
    text.append("}");
    text
}

impl<T> BST<T>
where
    T: Ord + Debug + Copy,
{
    /// Prepares the export of the tree under the name `filename`: the graph
    /// description, the path of the description file, and the command that
    /// renders it as a PNG image beside it.
    ///
    /// The description has one line for each of the tree's links, in the
    /// order of [`BST::edges`], with each value written as `Debug` formats
    /// it. Since that text is up to the element type, the contract fixes the
    /// layout of the description and the number of its lines, not the labels.
    pub fn to_graphviz(&self, filename: &str) -> (export: Export)
        ensures
            export.path@ == graph_path(filename@, ".dot"@),
            export.program@ == "dot"@,
            texts(export.args@) == renderer_args(filename@),
            exists|labels: Seq<(Seq<char>, Seq<char>)>|
                labels.len() == self@.edges().len() && export.text@ == document(labels),
    {
        let links = self.edges();
        let mut labels: Vec<(String, String)> = Vec::new();
        let mut i: usize = 0;
        while i < links.len()
            invariant
                i <= links.len(),
                labels.len() == i,
            decreases links.len() - i,
        {
            let (parent, child) = links[i];
            labels.push((debug_text(&parent), debug_text(&child)));
            i += 1;
        }
        let text = render(&labels);
        let path = graph_file(filename, ".dot");
        let output = graph_file(filename, ".png");
        let mut args: Vec<String> = Vec::new();
        args.push(String::from_str("-Tpng"));
        args.push(path.clone());
        args.push(String::from_str("-o"));
        args.push(output);
        proof {
            assert(texts(args@) =~= renderer_args(filename@));
            assert(label_texts(labels@).len() == self@.edges().len());
        }
        Export { path, text, program: String::from_str("dot"), args }
    }
}

} // verus!
