//! The viewer's command line.

use vstd::prelude::*;
use crate::number::{digits_value, is_number, parse_number, parsed};
use crate::text::{chars_of, digits_only, fill1, filled, owned, same, slice, texts};

verus! {

/// Opening window size.
#[derive(Debug, Clone, Copy, PartialEq, Eq, Structural)]
pub struct Size {
    pub width: i32,
    pub height: i32,
}

impl Default for Size {
    fn default() -> (r: Self)
        ensures
            r == (Size { width: 1120, height: 760 }),
    {
        Size { width: 1120, height: 760 }
    }
}

pub const MIN_WIDTH: i32 = 360;

pub const MIN_HEIGHT: i32 = 420;

/// What a command line asks for.
#[derive(Debug, Clone, Copy, PartialEq, Eq, Structural)]
pub enum Asked {
    Run(Size),
    Help,
    Version,
}

pub const NEEDS_NUMBER: &'static str = "{} needs a number";

pub const UNKNOWN_OPTION: &'static str = "unknown option: {}";

pub const TOO_SMALL: &'static str = "--width/--height are below the window's minimum (360x420)";

/// A number with an optional sign that fits the type, the way `str::parse` reads
/// one.
pub open spec fn int_read(s: Seq<char>) -> Option<int> {
    if s.len() > 0 && s[0] == '-' {
        let body = s.skip(1);
        if is_number(body) && digits_value(body) <= 0x8000_0000 {
            Some(-(digits_value(body) as int))
        } else {
            None
        }
    } else {
        match parsed(s, 0x7fff_ffff) {
            Some(n) => Some(n as int),
            None => None,
        }
    }
}

fn read_int(t: &str) -> (r: Option<i32>)
    ensures
        match r {
            Some(v) => int_read(t@) == Some(v as int),
            None => int_read(t@) is None,
        },
{
    let cs = chars_of(t);
    if cs.len() > 0 && cs[0] == '-' {
        let body = slice(&cs, 1, cs.len());
        assert(body@ =~= t@.skip(1));
        if !digits_only(body.as_str()) {
            return None;
        }
        if cs.len() > 1 {
            assert(crate::text::is_digit(body@[0]));
        }
        match parse_number(body.as_str(), 0x8000_0000) {
            Some(n) => if n == 0x8000_0000 {
                Some(i32::MIN)
            } else {
                Some(0 - (n as i32))
            },
            None => None,
        }
    } else {
        match parse_number(t, 0x7fff_ffff) {
            Some(n) => Some(n as i32),
            None => None,
        }
    }
}

/// What some arguments ask for, starting from a width and a height. The first
/// thing wrong is what is said.
pub open spec fn asked(args: Seq<Seq<char>>, width: int, height: int) -> Result<
    Asked,
    Seq<char>,
>
    decreases args.len(),
{
    if args.len() == 0 {
        if width < MIN_WIDTH || height < MIN_HEIGHT {
            Err(TOO_SMALL@)
        } else {
            Ok(Asked::Run(Size { width: width as i32, height: height as i32 }))
        }
    } else if args[0] == "--width"@ || args[0] == "--height"@ {
        if args.len() < 2 || int_read(args[1]) is None {
            Err(filled(NEEDS_NUMBER@, seq![args[0]]))
        } else if args[0] == "--width"@ {
            asked(args.skip(2), int_read(args[1])->0, height)
        } else {
            asked(args.skip(2), width, int_read(args[1])->0)
        }
    } else if args[0] == "-h"@ || args[0] == "--help"@ {
        Ok(Asked::Help)
    } else if args[0] == "-V"@ || args[0] == "--version"@ {
        Ok(Asked::Version)
    } else {
        Err(filled(UNKNOWN_OPTION@, seq![args[0]]))
    }
}

pub open spec fn result_text(r: Result<Asked, String>) -> Result<Asked, Seq<char>> {
    match r {
        Ok(a) => Ok(a),
        Err(e) => Err(e@),
    }
}

/// Everything behind the program's own name.
pub open spec fn arguments(argv: Seq<Seq<char>>) -> Seq<Seq<char>> {
    if argv.len() == 0 {
        argv
    } else {
        argv.skip(1)
    }
}

/// Parses the handful of options there are.
pub fn parse(argv: &Vec<String>) -> (r: Result<Asked, String>)
    ensures
        result_text(r) == asked(arguments(texts(argv@)), 1120, 760),
{
    let ghost all = texts(argv@);
    let mut size = Size::default();
    let mut i: usize = if argv.len() == 0 {
        0
    } else {
        1
    };
    assert(all.skip(i as int) =~= arguments(all));
    while i < argv.len()
        invariant
            i <= argv@.len(),
            all == texts(argv@),
            asked(all.skip(i as int), size.width as int, size.height as int) == asked(
                arguments(all),
                1120,
                760,
            ),
        decreases argv@.len() - i,
    {
        let ghost rest = all.skip(i as int);
        let arg = argv[i].as_str();
        assert(rest[0] == arg@);
        let wide = same(arg, "--width");
        if wide || same(arg, "--height") {
            if argv.len() - i < 2 {
                return Err(fill1(NEEDS_NUMBER, arg));
            }
            assert(rest[1] == argv@[i + 1]@);
            assert(rest.skip(2) =~= all.skip(i + 2));
            match read_int(argv[i + 1].as_str()) {
                Some(v) => {
                    if wide {
                        size.width = v;
                    } else {
                        size.height = v;
                    }
                },
                None => {
                    return Err(fill1(NEEDS_NUMBER, arg));
                },
            }
            i += 2;
        } else if same(arg, "-h") || same(arg, "--help") {
            return Ok(Asked::Help);
        } else if same(arg, "-V") || same(arg, "--version") {
            return Ok(Asked::Version);
        } else {
            return Err(fill1(UNKNOWN_OPTION, arg));
        }
    }
    assert(all.skip(i as int).len() == 0);
    if size.width < MIN_WIDTH || size.height < MIN_HEIGHT {
        return Err(owned(TOO_SMALL));
    }
    Ok(Asked::Run(size))
}

/// A window is never opened below its minimum.
pub proof fn no_window_is_too_small(args: Seq<Seq<char>>, width: int, height: int)
    requires
        i32::MIN <= width <= i32::MAX,
        i32::MIN <= height <= i32::MAX,
    ensures
        asked(args, width, height) matches Ok(Asked::Run(size)) ==> size.width >= MIN_WIDTH
            && size.height >= MIN_HEIGHT,
    decreases args.len(),
{
    if args.len() >= 2 && int_read(args[1]) is Some {
        no_window_is_too_small(args.skip(2), int_read(args[1])->0, height);
        no_window_is_too_small(args.skip(2), width, int_read(args[1])->0);
    }
}

} // verus!
