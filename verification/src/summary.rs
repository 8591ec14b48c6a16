//! The developer-facing summary of a set: the names of the types in it, in
//! ascending order, never the values.
use vstd::prelude::*;
use vstd::string::StringExecFns;

verus! {

/// A name as a developer-facing rendering shows it: in double quotes, with
/// the characters that need it escaped. It is what formatting the text with
/// `{:?}` gives.
pub uninterp spec fn quoted(name: Seq<char>) -> Seq<char>;

/// Whether `a` comes before `b`, or equals it, in the order of std's strings:
/// position by position, by code point, a prefix before what extends it.
pub open spec fn at_most(a: Seq<char>, b: Seq<char>) -> bool
    decreases a.len(),
{
    if a.len() == 0 {
        true
    } else if b.len() == 0 {
        false
    } else if a[0] != b[0] {
        (a[0] as u32) < (b[0] as u32)
    } else {
        at_most(a.skip(1), b.skip(1))
    }
}

/// Whether the names stand in ascending order.
pub open spec fn ascending(names: Seq<Seq<char>>) -> bool {
    forall|i: int, j: int| 0 <= i < j < names.len() ==> at_most(names[i], names[j])
}

/// The names as texts.
pub open spec fn texts(names: Seq<&'static str>) -> Seq<Seq<char>> {
    names.map_values(|name: &'static str| name@)
}

/// Whether `ordered` is `given` put in ascending order.
pub open spec fn is_ordering_of(ordered: Seq<Seq<char>>, given: Seq<Seq<char>>) -> bool {
    ascending(ordered) && ordered.to_multiset() == given.to_multiset()
}

/// The quoted names, separated by a comma and a space.
pub open spec fn listed(names: Seq<Seq<char>>) -> Seq<char>
    decreases names.len(),
{
    if names.len() == 0 {
        Seq::empty()
    } else if names.len() == 1 {
        quoted(names[0])
    } else {
        listed(names.drop_last()) + ", "@ + quoted(names.last())
    }
}

/// The summary of a set that holds the types of these names, in this order.
pub open spec fn summary_of(names: Seq<Seq<char>>) -> Seq<char> {
    "TypeSet({"@ + listed(names) + "})"@
}

/// Formats `name` with `{:?}`. Trusted: the result is the quoted name.
#[verifier::external_body]
fn quote(name: &str) -> (text: String)
    ensures
        text@ == quoted(name@),
{
    format!("{:?}", name)
}

/// Calls `sort_unstable` on the names. Trusted: afterwards the same names
/// stand in the ascending order of std's strings.
#[verifier::external_body]
fn sort_names(names: &mut Vec<&'static str>)
    ensures
        ascending(texts(final(names)@)),
        texts(final(names)@).to_multiset() == texts(old(names)@).to_multiset(),
{
    names.sort_unstable();
}

/// Renders the summary of a set from the names of the types in it: the names
/// sorted, each quoted, in braces after the word `TypeSet`.
pub fn summary(names: Vec<&'static str>) -> (text: String)
    ensures
        exists|ordered: Seq<Seq<char>>|
            is_ordering_of(ordered, texts(names@)) && text@ == #[trigger] summary_of(ordered),
{
    let ghost given = texts(names@);
    let mut names = names;
    sort_names(&mut names);
    let ghost ordered = texts(names@);
    let mut text = String::from_str("TypeSet({");
    let mut i: usize = 0;
    while i < names.len()
        invariant
            i <= names.len(),
            ordered == texts(names@),
            is_ordering_of(ordered, given),
            text@ == "TypeSet({"@ + listed(ordered.take(i as int)),
        decreases names.len() - i,
    {
        let ghost so_far = ordered.take(i as int);
        let ghost next = ordered.take(i + 1);
        proof {
            assert(next.drop_last() =~= so_far);
            assert(next.last() == names@[i as int]@);
        }
        if i > 0 {
            text.append(", ");
        }
        let part = quote(names[i]);
        text.append(part.as_str());
        proof {
            if i == 0 {
                assert(listed(so_far) =~= Seq::<char>::empty());
            }
            assert(text@ =~= "TypeSet({"@ + listed(next));
        }
        i += 1;
    }
    proof {
        assert(ordered.take(i as int) =~= ordered);
    }
    text.append("})");
    proof {
        assert(text@ == summary_of(ordered));
    }
    text
}

} // verus!
