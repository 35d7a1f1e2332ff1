//! Owned text and lists of it, seen in contracts as sequences of characters.

use vstd::prelude::*;

verus! {

/// Text as it stands in contracts.
pub type Text = Seq<char>;

/// The views of the items of a list, in order.
pub open spec fn views<T: View>(items: Seq<T>) -> Seq<T::V> {
    Seq::new(items.len(), |i: int| items[i]@)
}

/// Pushing an item onto a list pushes its view onto the list's views.
pub proof fn lemma_views_push<T: View>(items: Seq<T>, item: T)
    ensures
        views(items.push(item)) == views(items).push(item@),
{
    assert(views(items.push(item)) =~= views(items).push(item@));
}

/// A copy of a text.
pub fn copy_text(text: &String) -> (copy: String)
    ensures
        copy@ == text@,
{
    text.clone()
}

/// A copy of a list of texts.
pub fn copy_texts(texts: &Vec<String>) -> (copy: Vec<String>)
    ensures
        views(copy@) == views(texts@),
{
    let mut copy: Vec<String> = Vec::new();
    let mut i: usize = 0;
    while i < texts.len()
        invariant
            i <= texts.len(),
            views(copy@) == views(texts@.take(i as int)),
        decreases texts.len() - i,
    {
        proof {
            lemma_views_push(copy@, texts@[i as int]);
            assert(texts@.take(i as int + 1) =~= texts@.take(i as int).push(texts@[i as int]));
            lemma_views_push(texts@.take(i as int), texts@[i as int]);
        }
        let item = copy_text(&texts[i]);
        proof {
            lemma_views_push(copy@, item);
        }
        copy.push(item);
        i = i + 1;
    }
    proof {
        assert(texts@.take(texts.len() as int) =~= texts@);
    }
    copy
}

} // verus!
