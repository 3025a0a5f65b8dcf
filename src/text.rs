//! Text operations: joining, searching, and the release token of a package version.
use vstd::prelude::*;
use crate::workspace::strings_view;

verus! {

/// The parts, with `sep` between each two neighbours.
pub open spec fn joined(parts: Seq<Seq<char>>, sep: Seq<char>) -> Seq<char>
    decreases parts.len(),
{
    if parts.len() == 0 {
        Seq::empty()
    } else if parts.len() == 1 {
        parts[0]
    } else {
        joined(parts.drop_last(), sep) + sep + parts.last()
    }
}

/// Joins the views of strings with a separator.
pub fn join_strings(parts: &Vec<String>, sep: &str) -> (r: String)
    ensures
        r@ == joined(strings_view(parts@), sep@),
{
    let ghost views = strings_view(parts@);
    let mut r = String::new();
    for i in 0..parts.len()
        invariant
            views == strings_view(parts@),
            r@ == joined(views.take(i as int), sep@),
    {
        let ghost before = views.take(i as int);
        if i > 0 {
            r.append(sep);
        }
        r.append(parts[i].as_str());
        assert(views.take(i + 1).drop_last() =~= before);
        if i == 0 {
            assert(r@ =~= joined(views.take(1), sep@));
        }
    }
    assert(views.take(parts.len() as int) =~= views);
    r
}

/// `needle` occurs in `hay` at some position.
pub open spec fn has_substring(hay: Seq<char>, needle: Seq<char>) -> bool {
    exists|i: int| 0 <= i <= hay.len() - needle.len() && #[trigger] hay.subrange(i, i + needle.len()) == needle
}

/// Relies on std's `str::contains` with a string pattern: whether `needle` occurs in `hay`.
#[verifier::external_body]
pub(crate) fn text_contains(hay: &str, needle: &str) -> (r: bool)
    ensures
        r == has_substring(hay@, needle@),
{
    hay.contains(needle)
}

/// The token under which a released package version is recorded: `name@version`.
pub open spec fn release_token(name: Seq<char>, version: Seq<char>) -> Seq<char> {
    name + seq!['@'] + version
}

/// Builds the release token of a package version.
pub fn make_release_token(name: &str, version: &str) -> (r: String)
    ensures
        r@ == release_token(name@, version@),
{
    let mut r = name.to_owned();
    r.append("@");
    proof {
        reveal_strlit("@");
    }
    r.append(version);
    r
}

/// Two different versions of one package have different tokens.
pub proof fn lemma_release_token_versions(name: Seq<char>, v1: Seq<char>, v2: Seq<char>)
    requires
        v1 != v2,
    ensures
        release_token(name, v1) != release_token(name, v2),
{
    let t1 = release_token(name, v1);
    let t2 = release_token(name, v2);
    let k = name.len() as int + 1;
    assert(t1.subrange(k, t1.len() as int) =~= v1);
    assert(t2.subrange(k, t2.len() as int) =~= v2);
}

} // verus!
