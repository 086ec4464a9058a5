//! Small rules of the pages: the tag cloud and the theme switch.
use vstd::prelude::*;
use vstd::string::*;

verus! {

/// The font size of a tag that occurs `count` times: twelve, and two more
/// for every occurrence; never more than a `usize` holds.
pub open spec fn font_size_for(count: nat) -> nat {
    if 12 + 2 * count <= usize::MAX {
        12 + 2 * count
    } else {
        usize::MAX as nat
    }
}

/// The font size of a tag that occurs `count` times.
pub fn font_size(count: usize) -> (size: usize)
    ensures
        size == font_size_for(count as nat),
{
    if count <= (usize::MAX - 12) / 2 {
        12 + 2 * count
    } else {
        usize::MAX
    }
}

/// A tally with the font size of every tag.
pub open spec fn sized(tally: Seq<(String, usize)>) -> Seq<(Seq<char>, nat, nat)> {
    tally.map_values(
        |entry: (String, usize)| (entry.0@, entry.1 as nat, font_size_for(entry.1 as nat)),
    )
}

/// A tag cloud as plain text and numbers.
pub open spec fn cloud_views(cloud: Seq<(String, usize, usize)>) -> Seq<(Seq<char>, nat, nat)> {
    cloud.map_values(|entry: (String, usize, usize)| (entry.0@, entry.1 as nat, entry.2 as nat))
}

/// The tag cloud of a tally: every tag with its count and its font size, in
/// the order of the tally.
pub fn tag_cloud(tally: Vec<(String, usize)>) -> (cloud: Vec<(String, usize, usize)>)
    ensures
        cloud_views(cloud@) == sized(tally@),
{
    let ghost wanted = sized(tally@);
    let mut cloud: Vec<(String, usize, usize)> = Vec::new();
    proof {
        assert(cloud_views(cloud@) =~= wanted.take(0));
    }
    for entry in it: tally
        invariant
            wanted == sized(it.seq()),
            cloud_views(cloud@) == wanted.take(it.index() as int),
    {
        let ghost k = it.index() as int;
        let ghost before = cloud_views(cloud@);
        let (tag, count) = entry;
        cloud.push((tag, count, font_size(count)));
        proof {
            assert(cloud_views(cloud@) =~= before.push(wanted[k]));
            assert(wanted.take(k + 1) =~= wanted.take(k).push(wanted[k]));
        }
    }
    proof {
        assert(wanted.take(wanted.len() as int) =~= wanted);
    }
    cloud
}

/// The theme that follows `current`: the light theme follows the dark one,
/// and the dark theme follows everything else.
pub open spec fn theme_after(current: Seq<char>) -> Seq<char> {
    if current == "dark"@ {
        "light"@
    } else {
        "dark"@
    }
}

/// The theme to switch to from `current`.
pub fn next_theme(current: &str) -> (next: String)
    ensures
        next@ == theme_after(current@),
{
    if String::from_str(current) == String::from_str("dark") {
        String::from_str("light")
    } else {
        String::from_str("dark")
    }
}

} // verus!
