use vstd::prelude::*;

verus! {

/// Drops one trailing carriage return, as a line ended by CR LF loses both.
pub open spec fn strip_cr(line: Seq<u8>) -> Seq<u8> {
    if line.len() > 0 && line.last() == 13u8 {
        line.drop_last()
    } else {
        line
    }
}

/// The lines ended by a line feed in `s`, and what follows the last of them.
pub open spec fn split_ended(s: Seq<u8>) -> (Seq<Seq<u8>>, Seq<u8>)
    decreases s.len(),
{
    if s.len() == 0 {
        (Seq::empty(), Seq::empty())
    } else {
        let (done, cur) = split_ended(s.drop_last());
        if s.last() == 10u8 {
            (done.push(strip_cr(cur)), Seq::empty())
        } else {
            (done, cur.push(s.last()))
        }
    }
}

/// The lines of a text: split at each line feed, with one carriage return
/// before it dropped; a final line without a line feed counts when it is not empty.
pub open spec fn lines_of(s: Seq<u8>) -> Seq<Seq<u8>> {
    let (done, cur) = split_ended(s);
    if cur.len() > 0 {
        done.push(cur)
    } else {
        done
    }
}

fn strip_cr_exec(line: Vec<u8>) -> (r: Vec<u8>)
    ensures
        r@ == strip_cr(line@),
{
    let mut line = line;
    let n = line.len();
    if n > 0 && line[n - 1] == 13u8 {
        line.pop();
    }
    line
}

/// Splits file contents into lines.
pub fn split_lines(contents: &Vec<u8>) -> (r: Vec<Vec<u8>>)
    ensures
        r@.map_values(|l: Vec<u8>| l@) == lines_of(contents@),
{
    let mut done: Vec<Vec<u8>> = Vec::new();
    let mut cur: Vec<u8> = Vec::new();
    let mut i: usize = 0;
    while i < contents.len()
        invariant
            i <= contents@.len(),
            (done@.map_values(|l: Vec<u8>| l@), cur@) == split_ended(contents@.take(i as int)),
        decreases contents@.len() - i,
    {
        let ghost pre = contents@.take(i as int + 1);
        assert(pre.drop_last() == contents@.take(i as int));
        let b = contents[i];
        if b == 10u8 {
            let line = strip_cr_exec(cur);
            done.push(line);
            cur = Vec::new();
        } else {
            cur.push(b);
        }
        i = i + 1;
    }
    assert(contents@.take(contents@.len() as int) == contents@);
    if cur.len() > 0 {
        done.push(cur);
    }
    done
}

} // verus!
