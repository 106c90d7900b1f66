use vstd::prelude::*;

verus! {

/// The flag that asks for one headless frame written to a PNG.
pub open spec fn screenshot_flag() -> Seq<char> {
    "--screenshot"@
}

/// Where the headless screenshot goes when the arguments ask for one: the
/// first argument after the program name is `--screenshot`, and the path is
/// the next argument if there is one, else `default_path`. `None` means a
/// live window.
pub fn screenshot_request(args: &Vec<String>, default_path: &str) -> (r: Option<String>)
    ensures
        args@.len() >= 2 && args@[1]@ == screenshot_flag() ==> {
            &&& r is Some
            &&& r.unwrap()@ == if args@.len() >= 3 {
                args@[2]@
            } else {
                default_path@
            }
        },
        !(args@.len() >= 2 && args@[1]@ == screenshot_flag()) ==> r is None,
{
    if args.len() < 2 {
        return None;
    }
    let flag = "--screenshot".to_owned();
    if args[1] != flag {
        return None;
    }
    if args.len() >= 3 {
        Some(args[2].clone())
    } else {
        Some(default_path.to_owned())
    }
}

/// The simulation steps run before a headless screenshot, as a count and the
/// `f32` bit pattern of each step's dt: one step at dt 0.0 when no warmup
/// steps are set (so a static scene still gets its one update), else `steps`
/// steps at the fixed `dt`.
pub fn warmup_updates(steps: u32, dt: u32) -> (r: (u32, u32))
    ensures
        steps == 0 ==> r == (1u32, 0u32),
        steps > 0 ==> r == (steps, dt),
{
    if steps == 0 {
        (1, 0)
    } else {
        (steps, dt)
    }
}

} // verus!
