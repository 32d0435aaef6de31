//! Command-line argument handling: the one recognized flag is
//! `--config=<path>`; anything else is ignored, never fatal.

use vstd::prelude::*;

verus! {

/// The options the program runs under.
pub struct OptConfiguration {
    /// The path of the configuration file to load.
    pub config_filename: String,
}

/// Whether an argument carries a configuration path.
pub open spec fn spec_is_config_arg(a: Seq<char>) -> bool {
    a.len() >= 9 && a.subrange(0, 9) == "--config="@
}

/// The configuration path the arguments select: the last `--config=` value,
/// or the default `cmd.yml` when none is given.
pub open spec fn spec_chosen_config(args: Seq<Seq<char>>) -> Seq<char>
    decreases args.len(),
{
    if args.len() == 0 {
        "cmd.yml"@
    } else if spec_is_config_arg(args.last()) {
        args.last().skip(9)
    } else {
        spec_chosen_config(args.drop_last())
    }
}

/// Whether `a` starts with the nine characters `--config=`.
fn is_config_arg(a: &str) -> (r: bool)
    ensures
        r == spec_is_config_arg(a@),
{
    proof {
        reveal_strlit("--config=");
    }
    let n = a.unicode_len();
    if n < 9 {
        return false;
    }
    let p = "--config=";
    let mut i: usize = 0;
    while i < 9
        invariant
            i <= 9,
            9 <= a@.len(),
            p@ == "--config="@,
            p@.len() == 9,
            forall|j: int| 0 <= j < i ==> a@[j] == p@[j],
        decreases 9 - i,
    {
        if a.get_char(i) != p.get_char(i) {
            proof {
                assert(a@.subrange(0, 9) != "--config="@) by {
                    assert(a@.subrange(0, 9)[i as int] == a@[i as int]);
                }
            }
            return false;
        }
        i += 1;
    }
    proof {
        assert(a@.subrange(0, 9) =~= "--config="@);
    }
    true
}

/// Reads the options out of the argument strings: each `--config=<path>`
/// selects `<path>` (the last one wins) and every other argument is skipped.
pub fn parse_incoming_command_line(args: &Vec<String>) -> (r: OptConfiguration)
    ensures
        r.config_filename@ == spec_chosen_config(args@.map_values(|s: String| s@)),
{
    let ghost views = args@.map_values(|s: String| s@);
    let mut filename: String = "cmd.yml".to_owned();
    proof {
        assert(views.take(0) =~= Seq::<Seq<char>>::empty());
    }
    let mut i: usize = 0;
    while i < args.len()
        invariant
            i <= args@.len(),
            views == args@.map_values(|s: String| s@),
            filename@ == spec_chosen_config(views.take(i as int)),
        decreases args@.len() - i,
    {
        let a: &String = &args[i];
        proof {
            assert(views.take(i + 1).drop_last() =~= views.take(i as int));
            assert(views.take(i + 1).last() == a@);
        }
        if is_config_arg(a.as_str()) {
            let n = a.as_str().unicode_len();
            let tail = a.as_str().substring_char(9, n);
            filename = tail.to_owned();
            proof {
                assert(filename@ =~= a@.skip(9));
            }
        }
        i += 1;
    }
    proof {
        assert(views.take(args@.len() as int) =~= views);
    }
    OptConfiguration { config_filename: filename }
}

} // verus!
