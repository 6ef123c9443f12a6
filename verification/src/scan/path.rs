//! Source paths of values inside a document, such as `$.items[0].id`.

use vstd::prelude::*;

use crate::util::text::{dec_text, push_char, push_decimal, push_str};

verus! {

#[derive(Debug, Clone, PartialEq, Eq, Hash)]
pub struct SourcePath {
    parts: Vec<PathPart>,
}

#[derive(Debug, Clone, PartialEq, Eq, Hash)]
pub enum PathPart {
    Field(String),
    ArrayIndex(usize),
}

/// A path part with its field name as characters.
pub enum PathPartView {
    Field(Seq<char>),
    ArrayIndex(usize),
}

impl View for PathPart {
    type V = PathPartView;

    open spec fn view(&self) -> PathPartView {
        match self {
            PathPart::Field(field) => PathPartView::Field(field@),
            PathPart::ArrayIndex(index) => PathPartView::ArrayIndex(*index),
        }
    }
}

/// The text of one part: `.name`, `[index]`, or `[]` when indexes are
/// canonicalized.
pub open spec fn part_text(part: PathPartView, canonicalize_indexes: bool) -> Seq<char> {
    match part {
        PathPartView::Field(field) => seq!['.'] + field,
        PathPartView::ArrayIndex(index) => if canonicalize_indexes {
            seq!['[', ']']
        } else {
            seq!['['] + dec_text(index as nat) + seq![']']
        },
    }
}

/// `$` followed by the text of each part.
pub open spec fn path_text(parts: Seq<PathPartView>, canonicalize_indexes: bool) -> Seq<char>
    decreases parts.len(),
{
    if parts.len() == 0 {
        seq!['$']
    } else {
        path_text(parts.drop_last(), canonicalize_indexes) + part_text(parts.last(), canonicalize_indexes)
    }
}

impl SourcePath {
    /// The parts from the root down.
    pub closed spec fn parts(&self) -> Seq<PathPartView> {
        self.parts@.map_values(|part: PathPart| part@)
    }

    pub fn root() -> (path: Self)
        ensures
            path.parts() == Seq::<PathPartView>::empty(),
    {
        let path = Self { parts: Vec::new() };
        assert(path.parts() =~= Seq::empty());
        path
    }

    pub fn push_field(&mut self, field: &str)
        ensures
            final(self).parts() == old(self).parts().push(PathPartView::Field(field@)),
    {
        self.parts.push(PathPart::Field(field.to_owned()));
        assert(self.parts() =~= old(self).parts().push(PathPartView::Field(field@)));
    }

    pub fn push_index(&mut self, index: usize)
        ensures
            final(self).parts() == old(self).parts().push(PathPartView::ArrayIndex(index)),
    {
        self.parts.push(PathPart::ArrayIndex(index));
        assert(self.parts() =~= old(self).parts().push(PathPartView::ArrayIndex(index)));
    }

    pub fn pop(&mut self)
        ensures
            old(self).parts().len() == 0 ==> final(self).parts() == old(self).parts(),
            old(self).parts().len() > 0 ==> final(self).parts() == old(self).parts().drop_last(),
    {
        if self.parts.len() > 0 {
            let _ = self.parts.pop();
            assert(self.parts() =~= old(self).parts().drop_last());
        }
    }

    /// The path with array indexes, such as `$.items[0]`.
    pub fn as_str(&self) -> (text: String)
        ensures
            text@ == path_text(self.parts(), false),
    {
        format_path(&self.parts, false)
    }

    /// The path with array indexes replaced by `[]`, such as `$.items[]`.
    pub fn to_canonical_guess(&self) -> (text: String)
        ensures
            text@ == path_text(self.parts(), true),
    {
        format_path(&self.parts, true)
    }
}

fn format_path(parts: &Vec<PathPart>, canonicalize_indexes: bool) -> (text: String)
    ensures
        text@ == path_text(parts@.map_values(|part: PathPart| part@), canonicalize_indexes),
{
    let ghost views = parts@.map_values(|part: PathPart| part@);
    let mut path = String::new();
    push_char(&mut path, '$');
    assert(path@ =~= seq!['$']);
    let mut index: usize = 0;
    while index < parts.len()
        invariant
            index <= parts@.len(),
            views == parts@.map_values(|part: PathPart| part@),
            path@ == path_text(views.subrange(0, index as int), canonicalize_indexes),
        decreases parts@.len() - index,
    {
        let ghost prefix = views.subrange(0, index + 1);
        assert(prefix.drop_last() =~= views.subrange(0, index as int));
        assert(prefix.last() == parts@[index as int]@);
        let ghost before = path@;
        match &parts[index] {
            PathPart::Field(field) => {
                push_char(&mut path, '.');
                push_str(&mut path, field.as_str());
            },
            PathPart::ArrayIndex(array_index) => {
                if canonicalize_indexes {
                    push_char(&mut path, '[');
                    push_char(&mut path, ']');
                } else {
                    push_char(&mut path, '[');
                    push_decimal(&mut path, *array_index as u64);
                    push_char(&mut path, ']');
                }
            },
        }
        assert(path@ =~= before + part_text(prefix.last(), canonicalize_indexes));
        index = index + 1;
    }
    assert(views.subrange(0, parts@.len() as int) =~= views);
    path
}

/// Descending into a child and coming back leaves a path as it was: popping
/// after a push gives back the parts from before the push.
pub proof fn lemma_pop_undoes_push(parts: Seq<PathPartView>, part: PathPartView)
    ensures
        parts.push(part).len() > 0,
        parts.push(part).drop_last() == parts,
{
    assert(parts.push(part).drop_last() =~= parts);
}

/// The text of a child's path is its parent's text followed by the text of
/// the new part, in both renderings.
pub proof fn lemma_child_path_text(parts: Seq<PathPartView>, part: PathPartView, canonicalize_indexes: bool)
    ensures
        path_text(parts.push(part), canonicalize_indexes) == path_text(parts, canonicalize_indexes) + part_text(
            part,
            canonicalize_indexes,
        ),
{
    assert(parts.push(part).drop_last() =~= parts);
}

} // verus!
