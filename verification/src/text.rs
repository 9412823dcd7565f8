//! Building strings out of pieces.

use vstd::prelude::*;

verus! {

/// The characters of a list of string slices.
pub open spec fn str_views(pieces: Seq<&str>) -> Seq<Seq<char>> {
    pieces.map_values(|piece: &str| piece@)
}

/// The characters of a list of strings.
pub open spec fn string_views(pieces: Seq<String>) -> Seq<Seq<char>> {
    pieces.map_values(|piece: String| piece@)
}

/// `pieces` in order, with `separator` between each two neighbours.
pub open spec fn joined(pieces: Seq<Seq<char>>, separator: Seq<char>) -> Seq<char>
    decreases pieces.len(),
{
    if pieces.len() == 0 {
        Seq::empty()
    } else {
        let front = joined(pieces.drop_last(), separator);
        (if pieces.len() == 1 {
            front
        } else {
            front + separator
        }) + pieces.last()
    }
}

/// Pieces that are joined in two parts come with one separator between the
/// parts.
pub proof fn law_joined_parts(
    pieces: Seq<Seq<char>>,
    others: Seq<Seq<char>>,
    separator: Seq<char>,
)
    requires
        pieces.len() > 0,
        others.len() > 0,
    ensures
        joined(pieces + others, separator) == joined(pieces, separator) + separator + joined(
            others,
            separator,
        ),
    decreases others.len(),
{
    let front = others.drop_last();
    assert((pieces + others).drop_last() =~= pieces + front);
    assert((pieces + others).last() == others.last());
    if front.len() == 0 {
        assert(pieces + front =~= pieces);
        law_joined_one(others.last(), separator);
        assert(others =~= seq![others.last()]);
    } else {
        law_joined_parts(pieces, front, separator);
    }
    assert(joined(pieces + others, separator) =~= joined(pieces, separator) + separator + joined(
        others,
        separator,
    ));
}

/// One piece is joined to itself, and none to an empty text.
pub proof fn law_joined_one(piece: Seq<char>, separator: Seq<char>)
    ensures
        joined(seq![piece], separator) == piece,
        joined(Seq::empty(), separator) == Seq::<char>::empty(),
{
    assert(seq![piece].drop_last() =~= Seq::empty());
    assert(joined(seq![piece].drop_last(), separator) =~= Seq::empty());
    assert(joined(seq![piece], separator) =~= piece);
}

/// The characters of lists of strings are those of the strings, one by one.
pub proof fn law_views(pieces: Seq<String>, slices: Seq<&str>)
    ensures
        string_views(pieces).len() == pieces.len(),
        forall|i: int| 0 <= i < pieces.len() ==> #[trigger] string_views(pieces)[i] == pieces[i]@,
        str_views(slices).len() == slices.len(),
        forall|i: int| 0 <= i < slices.len() ==> #[trigger] str_views(slices)[i] == slices[i]@,
{
}

/// Puts the pieces one behind the other.
pub(crate) fn concat(pieces: &[&str]) -> (text: String)
    ensures
        text@ == str_views(pieces@).flatten(),
{
    let mut text = String::new();
    let mut done: usize = 0;
    assert(str_views(pieces@).take(0) =~= Seq::empty());
    while done < pieces.len()
        invariant
            done <= pieces.len(),
            text@ == str_views(pieces@).take(done as int).flatten(),
        decreases pieces.len() - done,
    {
        proof {
            let views = str_views(pieces@);
            assert(views.take(done + 1) =~= views.take(done as int).push(views[done as int]));
            views.take(done as int).lemma_flatten_push(views[done as int]);
        }
        text.append(pieces[done]);
        done += 1;
    }
    assert(str_views(pieces@).take(done as int) =~= str_views(pieces@));
    text
}

/// Puts the pieces one behind the other, with `separator` in between.
pub(crate) fn join(pieces: &Vec<String>, separator: &str) -> (text: String)
    ensures
        text@ == joined(string_views(pieces@), separator@),
{
    let mut text = String::new();
    let mut done: usize = 0;
    while done < pieces.len()
        invariant
            done <= pieces.len(),
            text@ =~= joined(string_views(pieces@).take(done as int), separator@),
        decreases pieces.len() - done,
    {
        proof {
            let views = string_views(pieces@);
            assert(views.take(done + 1).drop_last() =~= views.take(done as int));
        }
        if done > 0 {
            text.append(separator);
        }
        text.append(pieces[done].as_str());
        done += 1;
    }
    assert(string_views(pieces@).take(done as int) =~= string_views(pieces@));
    text
}

} // verus!
