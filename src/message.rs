use vstd::prelude::*;
use vstd::string::*;
use crate::guard::PathRejected;
use crate::text::push_char;

verus! {

/// The decimal digit of `d`.
pub open spec fn digit_char(d: nat) -> char {
    seq!['0', '1', '2', '3', '4', '5', '6', '7', '8', '9'][d as int]
}

/// `n` written in decimal, with no leading zeros.
pub open spec fn decimal(n: nat) -> Seq<char>
    decreases n,
{
    if n < 10 {
        seq![digit_char(n)]
    } else {
        decimal(n / 10).push(digit_char(n % 10))
    }
}

/// `n` written in decimal.
pub fn decimal_string(n: usize) -> (r: String)
    ensures
        r@ == decimal(n as nat),
    decreases n,
{
    let digits = "0123456789";
    proof {
        reveal_strlit("0123456789");
        assert(digits@ =~= seq!['0', '1', '2', '3', '4', '5', '6', '7', '8', '9']);
    }
    if n < 10 {
        let mut s = String::new();
        push_char(&mut s, digits.get_char(n));
        assert(s@ =~= seq![digit_char(n as nat)]);
        s
    } else {
        let mut s = decimal_string(n / 10);
        push_char(&mut s, digits.get_char(n % 10));
        s
    }
}

pub open spec fn end_message_spec(n: nat) -> Seq<char> {
    "Organized "@ + decimal(n) + " files successfully!"@
}

/// The summary of a finished reorganization of `num_files_organized` files.
pub fn end_message(num_files_organized: usize) -> (r: String)
    ensures
        r@ == end_message_spec(num_files_organized as nat),
{
    let mut s = "Organized ".to_owned();
    let d = decimal_string(num_files_organized);
    s.append(d.as_str());
    s.append(" files successfully!");
    s
}


pub open spec fn organize_message_spec(r: Result<usize, PathRejected>) -> Seq<char> {
    match r {
        Ok(n) => end_message_spec(n as nat),
        Err(PathRejected::SystemRoot) => "Error: Cannot organize files in the Windows directory."@,
        Err(PathRejected::InvalidPath) => "Error: Invalid path."@,
    }
}

/// What a caller is told after an organize request: the summary with the
/// number of files classified, or why the path was refused.
pub fn organize_message(r: Result<usize, PathRejected>) -> (m: String)
    ensures
        m@ == organize_message_spec(r),
{
    match r {
        Ok(n) => end_message(n),
        Err(PathRejected::SystemRoot) => "Error: Cannot organize files in the Windows directory.".to_owned(),
        Err(PathRejected::InvalidPath) => "Error: Invalid path.".to_owned(),
    }
}

} // verus!
