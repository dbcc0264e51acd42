//! How ids are made of addresses, and why different addresses make
//! different ids.
use vstd::prelude::*;
use crate::model::{descend, page_id, resolve, NetView, ObjectView};
use crate::text::{decimal, is_digit, lemma_leading_numeral};
use crate::wellformed::well_formed_object;

verus! {

/// What a path below a page adds to the page's id: for each index a hyphen
/// and the numeral of the index.
pub open spec fn path_tail(path: Seq<usize>) -> Seq<char>
    decreases path.len(),
{
    if path.len() == 0 {
        Seq::empty()
    } else {
        "-"@ + decimal(path[0] as nat) + path_tail(path.drop_first())
    }
}

/// The id of the page at `path` in a net with the id `net`.
pub open spec fn page_id_at(net: Seq<char>, path: Seq<usize>) -> Seq<char>
    recommends
        path.len() > 0,
{
    page_id(net, path[0] as nat) + path_tail(path.drop_first())
}

/// The id of a page below a well-formed page is the id of that page and
/// what the path between them adds.
pub proof fn lemma_id_below(obj: ObjectView, path: Seq<usize>)
    requires
        well_formed_object(obj),
        obj.is_page(),
        descend(obj, path) is Ok,
    ensures
        descend(obj, path)->Ok_0.id == obj.id + path_tail(path),
    decreases path.len(),
{
    if path.len() > 0 {
        lemma_id_below(obj.page().sub_pages[path[0] as int], path.drop_first());
    }
}

/// The id of a page of a well-formed net is made of the net's id and the
/// page's path.
pub proof fn lemma_page_id_at(net: NetView, path: Seq<usize>)
    requires
        net.well_formed(),
        resolve(net.pages, path) is Ok,
    ensures
        resolve(net.pages, path)->Ok_0.id == page_id_at(net.id, path),
{
    lemma_id_below(net.pages[path[0] as int], path.drop_first());
}

/// What follows the path in an id: nothing, or something that starts with
/// an underscore.
pub open spec fn is_ending(s: Seq<char>) -> bool {
    s.len() == 0 || s[0] == '_'
}

/// What a path adds, followed by an ending, tells the path and the ending.
pub proof fn lemma_path_tail_injective(a: Seq<usize>, s: Seq<char>, b: Seq<usize>, t: Seq<char>)
    requires
        path_tail(a) + s == path_tail(b) + t,
        is_ending(s),
        is_ending(t),
    ensures
        a == b,
        s == t,
    decreases a.len(),
{
    reveal_strlit("-");
    if a.len() == 0 && b.len() == 0 {
        // nothing but the endings are left
    } else if a.len() == 0 {
        assert(false);
    } else if b.len() == 0 {
        assert(false);
    } else {
        let left = decimal(a[0] as nat) + (path_tail(a.drop_first()) + s);
        let right = decimal(b[0] as nat) + (path_tail(b.drop_first()) + t);
        assert(left =~= (path_tail(a) + s).skip(1));
        assert(right =~= (path_tail(b) + t).skip(1));
        lemma_leading_numeral(
            a[0] as nat,
            path_tail(a.drop_first()) + s,
            b[0] as nat,
            path_tail(b.drop_first()) + t,
        );
        lemma_path_tail_injective(a.drop_first(), s, b.drop_first(), t);
        assert(b =~= seq![b[0]] + b.drop_first());
    }
}

/// What a path that is not empty adds starts with a hyphen.
proof fn lemma_starts_with_hyphen(path: Seq<usize>, s: Seq<char>)
    requires
        path.len() > 0,
    ensures
        (path_tail(path) + s).len() > 0,
        (path_tail(path) + s)[0] == '-',
{
    reveal_strlit("-");
}

/// What a path adds, followed by an ending, does not start with a digit.
proof fn lemma_no_digit_follows(path: Seq<usize>, s: Seq<char>)
    requires
        is_ending(s),
    ensures
        (path_tail(path) + s).len() == 0 || !is_digit((path_tail(path) + s)[0]),
{
    if path.len() > 0 {
        lemma_starts_with_hyphen(path, s);
    }
}

/// The id of a page, followed by an ending, tells the page's path and the
/// ending.
pub proof fn lemma_page_id_at_injective(
    net: Seq<char>,
    a: Seq<usize>,
    s: Seq<char>,
    b: Seq<usize>,
    t: Seq<char>,
)
    requires
        a.len() > 0,
        b.len() > 0,
        page_id_at(net, a) + s == page_id_at(net, b) + t,
        is_ending(s),
        is_ending(t),
    ensures
        a == b,
        s == t,
{
    let head = net + "_p"@;
    let left = decimal(a[0] as nat) + (path_tail(a.drop_first()) + s);
    let right = decimal(b[0] as nat) + (path_tail(b.drop_first()) + t);
    assert(page_id_at(net, a) + s =~= head + left);
    assert(page_id_at(net, b) + t =~= head + right);
    assert(left =~= (head + left).skip(head.len() as int));
    assert(right =~= (head + right).skip(head.len() as int));
    lemma_no_digit_follows(a.drop_first(), s);
    lemma_no_digit_follows(b.drop_first(), t);
    lemma_leading_numeral(
        a[0] as nat,
        path_tail(a.drop_first()) + s,
        b[0] as nat,
        path_tail(b.drop_first()) + t,
    );
    lemma_path_tail_injective(a.drop_first(), s, b.drop_first(), t);
    assert(b =~= seq![b[0]] + b.drop_first());
}

/// What an object adds to the id of its page is an ending.
pub proof fn lemma_object_ending(n: nat)
    ensures
        is_ending("_o"@ + decimal(n)),
        ("_o"@ + decimal(n)).len() > 0,
{
    reveal_strlit("_o");
}

} // verus!
