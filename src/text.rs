use vstd::prelude::*;
use vstd::string::*;
use vstd::utf8::*;

use crate::engine::texts;
use crate::error::PmkError;

verus! {

/// A line with the carriage return of a `\r\n` ending removed.
pub open spec fn strip_cr(line: Seq<u8>) -> Seq<u8> {
    if line.len() > 0 && line.last() == 0x0du8 {
        line.drop_last()
    } else {
        line
    }
}

/// Reading `t` from the start: the lines ended so far, and the bytes of the
/// line still open.
pub open spec fn scan_lines(t: Seq<u8>) -> (Seq<Seq<u8>>, Seq<u8>)
    decreases t.len(),
{
    if t.len() == 0 {
        (Seq::empty(), Seq::empty())
    } else {
        let (done, open) = scan_lines(t.drop_last());
        if t.last() == 0x0au8 {
            (done.push(strip_cr(open)), Seq::empty())
        } else {
            (done, open.push(t.last()))
        }
    }
}

/// The lines of `t`: split at each `\n`, which is removed together with a
/// `\r` just before it; a last line without `\n` counts when it is not empty.
pub open spec fn lines_of(t: Seq<u8>) -> Seq<Seq<u8>> {
    let (done, open) = scan_lines(t);
    if open.len() == 0 {
        done
    } else {
        done.push(open)
    }
}

/// The bytes of each line, as plain sequences.
pub open spec fn line_bytes(v: Seq<Vec<u8>>) -> Seq<Seq<u8>> {
    v.map_values(|l: Vec<u8>| l@)
}

/// Removes the last byte of `line` when it is a carriage return.
fn drop_cr(line: &mut Vec<u8>)
    ensures
        final(line)@ == strip_cr(old(line)@),
{
    let n = line.len();
    if n > 0 && line[n - 1] == 0x0du8 {
        line.pop();
        proof {
            assert(final(line)@ =~= old(line)@.drop_last());
        }
    }
}

/// Splits `t` into its lines, as bytes.
pub fn split_lines(t: &[u8]) -> (r: Vec<Vec<u8>>)
    ensures
        line_bytes(r@) == lines_of(t@),
{
    let mut done: Vec<Vec<u8>> = Vec::new();
    let mut open: Vec<u8> = Vec::new();
    let mut i: usize = 0;
    proof {
        assert(t@.subrange(0, 0) =~= Seq::<u8>::empty());
        assert(line_bytes(done@) =~= Seq::<Seq<u8>>::empty());
    }
    while i < t.len()
        invariant
            i <= t@.len(),
            line_bytes(done@) == scan_lines(t@.subrange(0, i as int)).0,
            open@ == scan_lines(t@.subrange(0, i as int)).1,
        decreases t@.len() - i,
    {
        let b = t[i];
        let ghost pre = t@.subrange(0, i + 1);
        proof {
            assert(pre.drop_last() =~= t@.subrange(0, i as int));
            assert(pre.last() == b);
        }
        if b == 0x0au8 {
            let mut line = open;
            open = Vec::new();
            drop_cr(&mut line);
            let ghost prev = done@;
            done.push(line);
            proof {
                assert(line_bytes(done@) =~= line_bytes(prev).push(line@));
                assert(open@ =~= Seq::<u8>::empty());
            }
        } else {
            open.push(b);
        }
        i = i + 1;
    }
    proof {
        assert(t@.subrange(0, t@.len() as int) =~= t@);
    }
    if open.len() > 0 {
        let ghost prev = done@;
        done.push(open);
        proof {
            assert(line_bytes(done@) =~= line_bytes(prev).push(open@));
        }
    }
    done
}

/// Relies on std's `String::from_utf8`: it succeeds exactly when the bytes
/// are valid UTF-8, and then holds the text they encode.
#[verifier::external_body]
fn utf8_text(bytes: Vec<u8>) -> (r: Option<String>)
    ensures
        r.is_some() == valid_utf8(bytes@),
        r matches Some(s) ==> s@ == decode_utf8(bytes@),
{
    String::from_utf8(bytes).ok()
}

/// Whether every line before index `k` of `lines` is valid UTF-8.
pub open spec fn valid_before(lines: Seq<Seq<u8>>, k: int) -> bool {
    forall|j: int| 0 <= j < k ==> valid_utf8(#[trigger] lines[j])
}

/// The texts that valid UTF-8 lines decode to.
pub open spec fn decode_all(lines: Seq<Seq<u8>>) -> Seq<Seq<char>> {
    lines.map_values(|l: Seq<u8>| decode_utf8(l))
}

/// Reads a list with one item per line. It succeeds exactly when every line
/// is valid UTF-8, with the lines' texts in order; otherwise it names the
/// first line that is not.
pub fn parse_list(t: &[u8]) -> (r: Result<Vec<String>, PmkError>)
    ensures
        r matches Ok(v) ==> valid_before(lines_of(t@), lines_of(t@).len() as int) && texts(v@)
            == decode_all(lines_of(t@)),
        r matches Err(e) ==> e matches PmkError::MalformedLine(k) && k < lines_of(t@).len()
            && valid_before(lines_of(t@), k as int) && !valid_utf8(lines_of(t@)[k as int]),
        r is Ok == valid_before(lines_of(t@), lines_of(t@).len() as int),
{
    let lines = split_lines(t);
    let ghost ls = lines_of(t@);
    let mut out: Vec<String> = Vec::new();
    let mut i: usize = 0;
    while i < lines.len()
        invariant
            i <= lines@.len(),
            ls == lines_of(t@),
            line_bytes(lines@) == ls,
            valid_before(ls, i as int),
            texts(out@) =~= decode_all(ls.subrange(0, i as int)),
        decreases lines@.len() - i,
    {
        let line = lines[i].clone();
        proof {
            assert(line@ =~= lines@[i as int]@);
        }
        match utf8_text(line) {
            Some(s) => {
                let ghost prev = out@;
                out.push(s);
                proof {
                    assert(ls[i as int] == lines@[i as int]@);
                    assert(ls.subrange(0, i + 1) =~= ls.subrange(0, i as int).push(ls[i as int]));
                    assert(texts(out@) =~= texts(prev).push(s@));
                }
            },
            None => {
                proof {
                    assert(ls[i as int] == lines@[i as int]@);
                    assert(!valid_utf8(ls[i as int]));
                    assert(i < ls.len());
                    assert(!valid_before(ls, ls.len() as int));
                }
                return Err(PmkError::MalformedLine(i));
            },
        }
        i = i + 1;
    }
    proof {
        assert(ls.subrange(0, ls.len() as int) =~= ls);
    }
    Ok(out)
}

/// The output text: each key followed by a newline, in order.
pub open spec fn joined_lines(keys: Seq<Seq<char>>) -> Seq<char>
    decreases keys.len(),
{
    if keys.len() == 0 {
        Seq::empty()
    } else {
        joined_lines(keys.drop_last()) + keys.last() + seq!['\n']
    }
}

/// Writes `keys` one per line, in order.
pub fn render_lines(keys: &Vec<String>) -> (r: String)
    ensures
        r@ == joined_lines(texts(keys@)),
{
    let mut out = String::new();
    let mut i: usize = 0;
    while i < keys.len()
        invariant
            i <= keys@.len(),
            out@ == joined_lines(texts(keys@.subrange(0, i as int))),
        decreases keys@.len() - i,
    {
        out.append(keys[i].as_str());
        proof {
            reveal_strlit("\n");
        }
        out.append("\n");
        proof {
            let next = texts(keys@.subrange(0, i + 1));
            assert(next.drop_last() =~= texts(keys@.subrange(0, i as int)));
            assert(next.last() == keys@[i as int]@);
        }
        i = i + 1;
    }
    proof {
        assert(keys@.subrange(0, keys@.len() as int) =~= keys@);
    }
    out
}

} // verus!
