//! Interpreting answers typed at interactive prompts.  Reading the answer
//! from the terminal is the surrounding application's business; this module
//! decides what an answer means.

use vstd::prelude::*;
use vstd::string::StringExecFns;
use crate::strutil::{chars_eq, from_chars, to_chars, trim_chars, trim_spec};

verus! {

/// The ASCII-lowercased form of `c`.
pub open spec fn lower_char(c: char) -> char {
    if 65 <= (c as u32) && (c as u32) <= 90 {
        (((c as u32) + 32) as u8) as char
    } else {
        c
    }
}

/// The ASCII-lowercased form of `s`.
pub open spec fn lower_spec(s: Seq<char>) -> Seq<char>
    decreases s.len(),
{
    if s.len() == 0 {
        Seq::empty()
    } else {
        lower_spec(s.drop_last()).push(lower_char(s.last()))
    }
}

/// Lowercases the ASCII letters of `cs`.
pub fn lower_chars(cs: &Vec<char>) -> (r: Vec<char>)
    ensures
        r@ == lower_spec(cs@),
{
    let mut r: Vec<char> = Vec::new();
    let mut i: usize = 0;
    while i < cs.len()
        invariant
            0 <= i <= cs@.len(),
            r@ == lower_spec(cs@.take(i as int)),
        decreases cs@.len() - i,
    {
        proof {
            assert(cs@.take(i + 1).drop_last() =~= cs@.take(i as int));
            assert(cs@.take(i + 1).last() == cs@[i as int]);
        }
        let c = cs[i];
        let u = c as u32;
        if 65 <= u && u <= 90 {
            r.push(((u + 32) as u8) as char);
        } else {
            r.push(c);
        }
        i = i + 1;
    }
    proof {
        assert(cs@.take(cs@.len() as int) =~= cs@);
    }
    r
}

/// What a yes/no answer means: the trimmed, lowercased text must read
/// `yes`, `y`, `no` or `n`; anything else is refused, echoing the answer.
pub open spec fn yesno_spec(input: Seq<char>) -> Result<bool, Seq<char>> {
    let t = lower_spec(trim_spec(input));
    if t == "yes"@ || t == "y"@ {
        Ok(true)
    } else if t == "no"@ || t == "n"@ {
        Ok(false)
    } else {
        Err("Invalid answer: "@ + t)
    }
}

/// Decides a yes/no answer, per [`yesno_spec`].
pub fn yesno(input: &str) -> (r: Result<bool, String>)
    ensures
        match yesno_spec(input@) {
            Ok(b) => r matches Ok(b2) && b2 == b,
            Err(m) => r matches Err(e) && e@ == m,
        },
{
    let cs = to_chars(input);
    let t = lower_chars(&trim_chars(&cs));
    if chars_eq(&t, &to_chars("yes")) || chars_eq(&t, &to_chars("y")) {
        Ok(true)
    } else if chars_eq(&t, &to_chars("no")) || chars_eq(&t, &to_chars("n")) {
        Ok(false)
    } else {
        let mut msg = "Invalid answer: ".to_owned();
        msg.append(from_chars(t.as_slice()).as_str());
        Err(msg)
    }
}

} // verus!
