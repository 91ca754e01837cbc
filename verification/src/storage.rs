//! Files kept under the data directory: loop transcripts and the chat
//! input history.

use vstd::prelude::*;

use crate::fs::{join_path, spec_join_path};
use crate::text::{decimal, push_chars, push_decimal, push_str, zero_padded};

verus! {

/// The directory of a loop session's transcripts.
pub fn transcript_dir(data_dir: &str, session_id: &str) -> (r: String)
    ensures
        r@ == spec_join_path(spec_join_path(data_dir@, "loops"@), session_id@),
{
    let loops = join_path(data_dir, "loops");
    join_path(loops.as_str(), session_id)
}

/// The transcript file of an iteration: `iter-` and the iteration number
/// padded with zeros to four digits, `.json`.
pub fn iteration_file_name(iteration: u32) -> (r: String)
    ensures
        r@ == "iter-"@ + zero_padded(iteration as nat, 4) + ".json"@,
{
    let mut d: Vec<char> = Vec::new();
    push_decimal(&mut d, iteration as u64);
    let mut s = String::from_str("iter-");
    let n = d.len();
    let mut k: usize = n;
    while k < 4
        invariant
            n == d@.len(),
            n <= k,
            k <= 4 || k == n,
            s@ == "iter-"@ + Seq::new((k - n) as nat, |_i: int| '0'),
            d@ == decimal(iteration as nat),
        decreases 4 - k,
    {
        crate::text::push_char(&mut s, '0');
        assert(Seq::new((k + 1 - n) as nat, |_i: int| '0') =~= Seq::new((k - n) as nat, |_i: int| '0').push('0'));
        k = k + 1;
    }
    push_chars(&mut s, d.as_slice());
    push_str(&mut s, ".json");
    proof {
        if n >= 4 {
            assert(Seq::new(0, |_i: int| '0') =~= Seq::<char>::empty());
            assert(s@ =~= "iter-"@ + zero_padded(iteration as nat, 4) + ".json"@);
        } else {
            assert(s@ =~= "iter-"@ + zero_padded(iteration as nat, 4) + ".json"@);
        }
    }
    s
}

/// The file of the chat input history.
pub fn chat_history_path(data_dir: &str) -> (r: String)
    ensures
        r@ == spec_join_path(data_dir@, "chat_history.json"@),
{
    join_path(data_dir, "chat_history.json")
}

} // verus!
