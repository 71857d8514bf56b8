//! Which files are taken for YAML.

use vstd::prelude::*;
use crate::text::to_chars;

verus! {

/// Whether a file name extension is one of YAML: `yml` or `yaml`.
pub open spec fn names_yaml(extension: Seq<char>) -> bool {
    extension == seq!['y', 'm', 'l'] || extension == seq!['y', 'a', 'm', 'l']
}

/// Whether a file with this extension is (likely) YAML.
pub fn is_yaml_extension(extension: &str) -> (yaml: bool)
    ensures
        yaml == names_yaml(extension@),
{
    let chars = to_chars(extension);
    let n: usize = chars.len();
    let yaml = if n == 3 {
        chars[0] == 'y' && chars[1] == 'm' && chars[2] == 'l'
    } else if n == 4 {
        chars[0] == 'y' && chars[1] == 'a' && chars[2] == 'm' && chars[3] == 'l'
    } else {
        false
    };
    proof {
        if yaml {
            if n == 3 {
                assert(chars@ =~= seq!['y', 'm', 'l']);
            } else {
                assert(chars@ =~= seq!['y', 'a', 'm', 'l']);
            }
        }
    }
    yaml
}

} // verus!
