//! The decisions of the interactive loops: what counts as an exit command.

use vstd::prelude::*;
use vstd::string::StrSliceExecFns;
use vstd::string::StringExecFns;

verus! {

/// Whitespace stripped from the ends of an interactive line: the characters
/// with Unicode's White_Space property, the set `str::trim` strips.
pub open spec fn is_trim_blank(c: char) -> bool {
    ||| c as u32 == 0x20
    ||| (0x09 <= c as u32 && c as u32 <= 0x0D)
    ||| c as u32 == 0x85
    ||| c as u32 == 0xA0
    ||| c as u32 == 0x1680
    ||| (0x2000 <= c as u32 && c as u32 <= 0x200A)
    ||| c as u32 == 0x2028
    ||| c as u32 == 0x2029
    ||| c as u32 == 0x202F
    ||| c as u32 == 0x205F
    ||| c as u32 == 0x3000
}

/// `s` without its leading whitespace.
pub open spec fn trim_front(s: Seq<char>) -> Seq<char>
    decreases s.len(),
{
    if s.len() == 0 {
        s
    } else if is_trim_blank(s[0]) {
        trim_front(s.drop_first())
    } else {
        s
    }
}

/// `s` without its trailing whitespace.
pub open spec fn trim_back(s: Seq<char>) -> Seq<char>
    decreases s.len(),
{
    if s.len() == 0 {
        s
    } else if is_trim_blank(s.last()) {
        trim_back(s.drop_last())
    } else {
        s
    }
}

/// `s` without its surrounding whitespace.
pub open spec fn spec_trim(s: Seq<char>) -> Seq<char> {
    trim_back(trim_front(s))
}

fn is_blank_char(c: char) -> (r: bool)
    ensures
        r == is_trim_blank(c),
{
    let u = c as u32;
    u == 0x20 || (0x09 <= u && u <= 0x0D) || u == 0x85 || u == 0xA0 || u == 0x1680 || (0x2000 <= u
        && u <= 0x200A) || u == 0x2028 || u == 0x2029 || u == 0x202F || u == 0x205F || u == 0x3000
}

/// Whether the line, after trimming surrounding whitespace, is one of the
/// two loop-termination commands, case-sensitively.
pub fn is_exit_command(line: &str) -> (r: bool)
    ensures
        r == (spec_trim(line@) == "exit"@ || spec_trim(line@) == "quit"@),
{
    let len = line.unicode_len();
    let mut a: usize = 0;
    proof {
        assert(line@.skip(0) =~= line@);
    }
    while a < len && is_blank_char(line.get_char(a))
        invariant
            a <= len,
            len == line@.len(),
            trim_front(line@) == trim_front(line@.skip(a as int)),
        decreases len - a,
    {
        let ghost before = line@.skip(a as int);
        a = a + 1;
        proof {
            assert(before.drop_first() =~= line@.skip(a as int));
        }
    }
    proof {
        if a < len {
            assert(trim_front(line@.skip(a as int)) == line@.skip(a as int));
        } else {
            assert(line@.skip(a as int) =~= Seq::<char>::empty());
        }
        assert(trim_front(line@) == line@.skip(a as int));
    }
    let mut b: usize = len;
    while b > a && is_blank_char(line.get_char(b - 1))
        invariant
            a <= b <= len,
            len == line@.len(),
            trim_front(line@) == line@.skip(a as int),
            spec_trim(line@) == trim_back(line@.subrange(a as int, b as int)),
        decreases b,
    {
        let ghost before = line@.subrange(a as int, b as int);
        b = b - 1;
        proof {
            assert(before.len() > 0);
            assert(before.last() == line@[b as int]);
            assert(before.drop_last() =~= line@.subrange(a as int, b as int));
        }
    }
    proof {
        if b > a {
            assert(line@.subrange(a as int, b as int).last() == line@[b as int - 1]);
            assert(trim_back(line@.subrange(a as int, b as int)) == line@.subrange(
                a as int,
                b as int,
            ));
        } else {
            assert(line@.subrange(a as int, b as int) =~= Seq::<char>::empty());
        }
        assert(spec_trim(line@) == line@.subrange(a as int, b as int));
    }
    let trimmed = line.substring_char(a, b).to_owned();
    let exit_word = String::from_str("exit");
    let quit_word = String::from_str("quit");
    trimmed == exit_word || trimmed == quit_word
}

} // verus!
