//! The output files of materialized features: one per feature, named by its
//! position.

use crate::model::{Feature, FeatureView, Text};
use crate::render::{feature_to_string, rendered};
use vstd::prelude::*;
use vstd::string::{StrSliceExecFns, StringExecFns};

verus! {

/// The decimal digit `d`, for `0 <= d < 10`, as a text of one character.
pub open spec fn digit(d: int) -> Text {
    "0123456789"@.subrange(d, d + 1)
}

/// The decimal numeral of `n`, without leading zeros.
pub open spec fn decimal(n: nat) -> Text
    decreases n,
{
    if n < 10 {
        digit(n as int)
    } else {
        decimal(n / 10) + digit((n % 10) as int)
    }
}

/// The path of the file at a position: the directory text as it is, the
/// position in decimal, and the extension.
pub open spec fn file_path(dir: Text, index: nat) -> Text {
    dir + decimal(index) + ".feature"@
}

/// The files of the features: for each, in order, its path and its text.
pub open spec fn files(features: Seq<FeatureView>, dir: Text) -> Seq<(Text, Text)> {
    Seq::new(features.len(), |i: int| (file_path(dir, i as nat), rendered(features[i])))
}

/// The decimal numeral of `n`.
pub fn decimal_string(n: usize) -> (text: String)
    ensures
        text@ == decimal(n as nat),
    decreases n,
{
    proof {
        reveal_strlit("0123456789");
    }
    if n < 10 {
        String::from_str("0123456789".substring_char(n, n + 1))
    } else {
        let mut text = decimal_string(n / 10);
        text.append("0123456789".substring_char(n % 10, n % 10 + 1));
        text
    }
}

/// The path of the output file at a position. The directory is taken as a
/// prefix: it ends with its separator.
pub fn output_path(dir: &str, index: usize) -> (path: String)
    ensures
        path@ == file_path(dir@, index as nat),
{
    let mut path = String::from_str(dir);
    path.append(decimal_string(index).as_str());
    path.append(".feature");
    path
}

/// The files to write for the features: for each, in order, the path under
/// the directory that its position gives, and its rendered text.
pub fn output_files(features: &Vec<Feature>, dir: &str) -> (res: Vec<(String, String)>)
    ensures
        res.deep_view() == files(features.deep_view(), dir@),
{
    let mut res: Vec<(String, String)> = Vec::new();
    let mut i: usize = 0;
    while i < features.len()
        invariant
            i <= features.len(),
            res.len() == i,
            forall|j: int|
                0 <= j < i ==> (#[trigger] res[j]).deep_view() == (
                    file_path(dir@, j as nat),
                    rendered(features[j]@),
                ),
        decreases features.len() - i,
    {
        res.push((output_path(dir, i), feature_to_string(&features[i])));
        i += 1;
    }
    assert(res.deep_view() =~= files(features.deep_view(), dir@));
    res
}

} // verus!
