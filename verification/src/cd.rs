use vstd::prelude::*;

use crate::shellname::home_dir_string;
use crate::tokenizer::Tokenizer;

verus! {

/// Resolve the target of a change-directory command from its argument and
/// the home directory: no argument and the bare tilde both name home, any
/// other argument names itself.
pub fn cd_target_with_home(arg: Option<String>, home: String) -> (r: String)
    ensures
        r@ == match arg {
            Some(p) => if p@ == "~"@ {
                home@
            } else {
                p@
            },
            None => home@,
        },
{
    match arg {
        Some(p) => {
            let tilde = if p.as_str().unicode_len() == 1 {
                p.as_str().get_char(0) == '~'
            } else {
                false
            };
            proof {
                reveal_strlit("~");
                if tilde {
                    assert(p@ =~= "~"@);
                }
                if p@ == "~"@ {
                    assert(p@.len() == 1 && p@[0] == '~');
                }
            }
            if tilde {
                home
            } else {
                p
            }
        },
        None => home,
    }
}

/// Consume a change-directory command and resolve its target path.  The
/// argument after the command name is the target; no argument, or the
/// bare tilde, names the home directory.  `None` comes back only when the
/// home directory was needed and the platform does not report one.
pub fn cd_target(line: &mut Tokenizer) -> (r: Option<String>)
    requires
        old(line).tokens().len() > 0,
        old(line).tokens()[0] == "cd"@,
    ensures
        old(line).tokens().len() >= 2 && old(line).tokens()[1] != "~"@ ==> (r matches Some(p)
            && p@ == old(line).tokens()[1]),
        r is None ==> old(line).tokens().len() < 2 || old(line).tokens()[1] == "~"@,
{
    let _name = line.next();
    let path = line.next();
    match path {
        Some(p) => {
            let tilde = if p.as_str().unicode_len() == 1 {
                p.as_str().get_char(0) == '~'
            } else {
                false
            };
            proof {
                reveal_strlit("~");
                if tilde {
                    assert(p@ =~= "~"@);
                }
                if p@ == "~"@ {
                    assert(p@.len() == 1 && p@[0] == '~');
                }
            }
            if tilde {
                home_dir_string()
            } else {
                Some(p)
            }
        },
        None => home_dir_string(),
    }
}

} // verus!
