//! Text of error messages, written into a fixed-size buffer.
use vstd::prelude::*;
use vstd::string::StringSliceAdditionalSpecFns;
use crate::maxint::{decimal, u_max_int_strlen, u_max_int_write};

verus! {

/// A piece of message text.
#[derive(Clone, Copy)]
pub enum ConstFmt<'a> {
    /// A number, written in decimal.
    PrimUint(u128),
    /// A string, written as its UTF-8 bytes.
    Str(&'a str),
    /// Several pieces, one after the other.
    Concat(&'a Vec<ConstFmt<'a>>),
}

impl<'a> ConstFmt<'a> {
    /// The bytes of the whole text.
    pub open spec fn rendered(self) -> Seq<u8>
        decreases self,
    {
        match self {
            ConstFmt::PrimUint(n) => decimal(n as nat),
            ConstFmt::Str(s) => s.spec_bytes(),
            ConstFmt::Concat(parts) => Self::rendered_all(parts@),
        }
    }

    /// The bytes of several pieces, one after the other.
    pub open spec fn rendered_all(parts: Seq<ConstFmt<'a>>) -> Seq<u8>
        decreases parts,
    {
        if parts.len() == 0 {
            Seq::empty()
        } else {
            parts[0].rendered() + Self::rendered_all(parts.drop_first())
        }
    }
}

/// Text written at position `pos` of a buffer of `len` bytes: all of it when it fits,
/// else as much of it as fits.
pub open spec fn written_at(text: Seq<u8>, before: Seq<u8>, after: Seq<u8>, pos: int, r: Option<usize>) -> bool {
    &&& after.len() == before.len()
    &&& after.take(pos) == before.take(pos)
    &&& (r is Some <==> text.len() <= before.len() - pos)
    &&& (r is Some ==> r->0 == pos + text.len() && after.subrange(pos, pos + text.len()) == text
        && after.skip(pos + text.len()) == before.skip(pos + text.len()))
    &&& (r is None ==> after.skip(pos) == text.take(before.len() - pos))
}

/// The leading decimal digits of a number are those of its quotient by ten.
proof fn lemma_decimal_prefix(n: nat)
    requires
        n >= 10,
    ensures
        decimal(n / 10) == decimal(n).drop_last(),
{
}

impl<'a> ConstFmt<'a> {
    /// Writes the text into `out` from position `pos` on. Returns the position after it, or
    /// `None` where it does not fit; then as much of it as fits is written.
    fn write_at(self, out: &mut [u8], pos: usize) -> (r: Option<usize>)
        requires
            pos <= old(out)@.len(),
        ensures
            written_at(self.rendered(), old(out)@, final(out)@, pos as int, r),
        decreases self,
    {
        match self {
            ConstFmt::PrimUint(n) => {
                if pos == out.len() {
                    proof {
                        crate::maxint::lemma_decimal_len(n as nat);
                        assert(out@.skip(pos as int) =~= Seq::<u8>::empty());
                        assert(self.rendered().take(0) =~= Seq::<u8>::empty());
                    }
                    return None;
                }
                let room = out.len() - pos;
                proof {
                    assert(decimal(n as nat) =~= decimal(n as nat).take(decimal(n as nat).len() as int));
                }
                let mut m = n;
                let mut ran_out = false;
                while room < u_max_int_strlen(m)
                    invariant
                        room >= 1,
                        decimal(m as nat).len() <= decimal(n as nat).len(),
                        decimal(m as nat) == decimal(n as nat).take(decimal(m as nat).len() as int),
                        ran_out ==> decimal(m as nat).len() >= room,
                        ran_out ==> decimal(n as nat).len() > room,
                        !ran_out ==> m == n,
                    decreases m,
                {
                    let ghost before = m;
                    ran_out = true;
                    m = m / 10;
                    proof {
                        crate::maxint::lemma_decimal_len(before as nat);
                        let dn = decimal(n as nat);
                        let db = decimal(before as nat);
                        assert(before >= 10);
                        lemma_decimal_prefix(before as nat);
                        assert(decimal(m as nat) == db.drop_last());
                        assert(db.drop_last() =~= dn.take(db.len() - 1)) by {
                            assert forall|j: int| 0 <= j < db.len() - 1 implies db.drop_last()[j]
                                == dn.take(db.len() - 1)[j] by {
                                assert(db[j] == dn.take(db.len() as int)[j]);
                            }
                        }
                    }
                }
                let ghost old_out = out@;
                let (head, tail) = out.split_at_mut(pos);
                let rest = u_max_int_write(m, tail);
                let ghost len = decimal(m as nat).len();
                proof {
                    assert(head@ =~= old_out.take(pos as int));
                    assert(rest@ =~= old_out.skip(pos + len));
                }
                proof {
                    assert(out@ =~= old_out.take(pos as int) + decimal(m as nat) + old_out.skip(pos + len));
                    assert(out@.take(pos as int) =~= old_out.take(pos as int));
                    assert(out@.subrange(pos as int, pos + len) =~= decimal(m as nat));
                    assert(out@.skip(pos + len) =~= old_out.skip(pos + len));
                }
                if ran_out {
                    proof {
                        assert(len == room);
                        assert(out@.skip(pos as int) =~= decimal(m as nat));
                    }
                    return None;
                }
                Some(pos + u_max_int_strlen(m))
            },
            ConstFmt::Str(s) => {
                let bytes = s.as_bytes();
                let room = out.len() - pos;
                if room < bytes.len() {
                    copy_into(out, pos, bytes, room);
                    proof {
                        assert(out@.skip(pos as int) =~= bytes@.take(room as int));
                    }
                    return None;
                }
                copy_into(out, pos, bytes, bytes.len());
                proof {
                    assert(bytes@.take(bytes@.len() as int) =~= bytes@);
                }
                Some(pos + bytes.len())
            },
            ConstFmt::Concat(parts) => {
                let mut p = pos;
                let mut i: usize = 0;
                proof {
                    assert(parts@.take(0) =~= Seq::<ConstFmt>::empty());
                    assert(out@.subrange(pos as int, pos as int) =~= Seq::<u8>::empty());
                    assert(out@.take(pos as int) =~= old(out)@.take(pos as int));
                }
                while i < parts.len()
                    invariant
                        i <= parts@.len(),
                        self == ConstFmt::Concat(parts),
                        pos <= old(out)@.len(),
                        written_at(
                            Self::rendered_all(parts@.take(i as int)),
                            old(out)@,
                            out@,
                            pos as int,
                            Some(p),
                        ),
                    decreases parts@.len() - i,
                {
                    let ghost mid = out@;
                    let part = parts[i];
                    proof {
                        assert(self->0 == parts);
                        assert(decreases_to!(self => self->0));
                        assert(decreases_to!(parts => parts@));
                        assert(decreases_to!(parts@ => parts@[i as int]));
                        assert(decreases_to!(self => parts@[i as int]));
                        lemma_rendered_all_push(parts@.take(i as int), part);
                        assert(parts@.take(i + 1) =~= parts@.take(i as int).push(part));
                    }
                    match part.write_at(out, p) {
                        Some(np) => {
                            proof {
                                lemma_written_concat(
                                    Self::rendered_all(parts@.take(i as int)),
                                    part.rendered(),
                                    old(out)@,
                                    mid,
                                    out@,
                                    pos as int,
                                    p as int,
                                    Some(np),
                                );
                            }
                            p = np;
                        },
                        None => {
                            proof {
                                lemma_written_concat(
                                    Self::rendered_all(parts@.take(i as int)),
                                    part.rendered(),
                                    old(out)@,
                                    mid,
                                    out@,
                                    pos as int,
                                    p as int,
                                    None,
                                );
                                lemma_rendered_all_prefix(parts@, i + 1);
                                let head = Self::rendered_all(parts@.take(i + 1));
                                let tail = Self::rendered_all(parts@.skip(i + 1));
                                assert((head + tail).take(head.len() as int) =~= head);
                                lemma_written_longer(
                                    Self::rendered_all(parts@.take(i + 1)),
                                    self.rendered(),
                                    old(out)@,
                                    out@,
                                    pos as int,
                                );
                            }
                            return None;
                        },
                    }
                    i = i + 1;
                }
                proof {
                    assert(parts@.take(parts@.len() as int) =~= parts@);
                }
                Some(p)
            },
        }
    }
}

impl<'a> ConstFmt<'a> {
    /// Writes the text at the start of `out`. Gives back the rest of `out` where the text
    /// fits; where it does not, writes as much of it as fits and gives back `None`.
    pub fn write<'b>(self, out: &'b mut [u8]) -> (r: Option<&'b mut [u8]>)
        ensures
            r is Some <==> self.rendered().len() <= old(out)@.len(),
            r is Some ==> r->0@ == old(out)@.skip(self.rendered().len() as int) && final(out)@
                == self.rendered() + final(r->0)@,
            r is None ==> final(out)@ == self.rendered().take(old(out)@.len() as int),
    {
        let ghost before = out@;
        match self.write_at(out, 0) {
            Some(p) => {
                let (_, rest) = out.split_at_mut(p);
                proof {
                    assert(rest@ =~= before.skip(self.rendered().len() as int));
                }
                Some(rest)
            },
            None => {
                proof {
                    assert(out@.skip(0) =~= out@);
                }
                None
            },
        }
    }
}

/// The size of the buffer for panic messages.
pub const MSG_SIZE: usize = 1024;

/// The bytes of a panic message: the whole text where it fits in [`MSG_SIZE`] bytes, else
/// as much as fits with its last three bytes replaced by `...`.
pub open spec fn panic_message_spec(text: Seq<u8>) -> Seq<u8> {
    if text.len() <= MSG_SIZE {
        text
    } else {
        text.take(MSG_SIZE - 3) + seq![46u8, 46u8, 46u8]
    }
}

/// The bytes of the panic message for `fmt`, cut to [`MSG_SIZE`] bytes.
pub fn panic_message(fmt: ConstFmt) -> (r: Vec<u8>)
    ensures
        r@ == panic_message_spec(fmt.rendered()),
{
    let mut buf: Vec<u8> = vec![0u8; MSG_SIZE];
    let ghost text = fmt.rendered();
    let written = match fmt.write(buf.as_mut_slice()) {
        Some(rest) => Some(rest.len()),
        None => None,
    };
    match written {
        Some(rest_len) => {
            let len = MSG_SIZE - rest_len;
            buf.truncate(len);
            proof {
                assert(buf@ =~= text);
            }
        },
        None => {
            buf.set(MSG_SIZE - 3, 46);
            buf.set(MSG_SIZE - 2, 46);
            buf.set(MSG_SIZE - 1, 46);
            proof {
                assert(buf@ =~= text.take(MSG_SIZE - 3) + seq![46u8, 46u8, 46u8]);
            }
        },
    }
    buf
}

/// Copies the first `count` bytes of `src` into `out` from position `pos` on.
fn copy_into(out: &mut [u8], pos: usize, src: &[u8], count: usize)
    requires
        count <= src@.len(),
        pos + count <= old(out)@.len(),
    ensures
        final(out)@.len() == old(out)@.len(),
        final(out)@.take(pos as int) == old(out)@.take(pos as int),
        final(out)@.subrange(pos as int, pos + count) == src@.take(count as int),
        final(out)@.skip(pos + count) == old(out)@.skip(pos + count),
{
    let ghost before = out@;
    let n = out.len();
    let mut k: usize = 0;
    while k < count
        invariant
            k <= count <= src@.len(),
            pos + count <= n == before.len(),
            out@.len() == before.len(),
            forall|j: int| 0 <= j < pos ==> out@[j] == before[j],
            forall|j: int| 0 <= j < k ==> out@[pos + j] == src@[j],
            forall|j: int| pos + k <= j < before.len() ==> out@[j] == before[j],
        decreases count - k,
    {
        out[pos + k] = src[k];
        k = k + 1;
    }
    proof {
        assert(out@.take(pos as int) =~= before.take(pos as int));
        assert(out@.subrange(pos as int, pos + count) =~= src@.take(count as int));
        assert(out@.skip(pos + count) =~= before.skip(pos + count));
    }
}

/// The text of several pieces followed by one more.
proof fn lemma_rendered_all_push<'a>(parts: Seq<ConstFmt<'a>>, last: ConstFmt<'a>)
    ensures
        ConstFmt::rendered_all(parts.push(last)) == ConstFmt::rendered_all(parts) + last.rendered(),
    decreases parts.len(),
{
    let all = parts.push(last);
    assert(all.len() > 0);
    assert(ConstFmt::rendered_all(all) == all[0].rendered() + ConstFmt::rendered_all(
        all.drop_first(),
    ));
    if parts.len() == 0 {
        assert(all[0] == last);
        assert(all.drop_first() =~= Seq::<ConstFmt>::empty());
        assert(ConstFmt::rendered_all(all.drop_first()) == Seq::<u8>::empty());
        assert(ConstFmt::rendered_all(parts) == Seq::<u8>::empty());
        assert(last.rendered() + Seq::<u8>::empty() =~= last.rendered());
        assert(Seq::<u8>::empty() + last.rendered() =~= last.rendered());
    } else {
        assert(all[0] == parts[0]);
        assert(all.drop_first() =~= parts.drop_first().push(last));
        lemma_rendered_all_push(parts.drop_first(), last);
        assert(parts[0].rendered() + (ConstFmt::rendered_all(parts.drop_first()) + last.rendered())
            =~= (parts[0].rendered() + ConstFmt::rendered_all(parts.drop_first())) + last.rendered());
    }
}

/// The text of the first `i` pieces is a prefix of the text of all of them.
proof fn lemma_rendered_all_prefix<'a>(parts: Seq<ConstFmt<'a>>, i: int)
    requires
        0 <= i <= parts.len(),
    ensures
        ConstFmt::rendered_all(parts) == ConstFmt::rendered_all(parts.take(i)) + ConstFmt::rendered_all(
            parts.skip(i),
        ),
    decreases parts.len() - i,
{
    if i == parts.len() {
        assert(parts.take(i) =~= parts);
        assert(parts.skip(i) =~= Seq::<ConstFmt>::empty());
        assert(ConstFmt::rendered_all(parts) + Seq::<u8>::empty() =~= ConstFmt::rendered_all(parts));
    } else {
        lemma_rendered_all_prefix(parts, i + 1);
        lemma_rendered_all_push(parts.take(i), parts[i]);
        assert(parts.take(i + 1) =~= parts.take(i).push(parts[i]));
        assert(parts.skip(i).drop_first() =~= parts.skip(i + 1));
        assert(parts.skip(i)[0] == parts[i]);
        let a = ConstFmt::rendered_all(parts.take(i));
        let b = parts[i].rendered();
        let c = ConstFmt::rendered_all(parts.skip(i + 1));
        assert((a + b) + c =~= a + (b + c));
    }
}

/// Writing text `a` and then text `b` right after it is writing `a + b`.
proof fn lemma_written_concat(
    a: Seq<u8>,
    b: Seq<u8>,
    s0: Seq<u8>,
    s1: Seq<u8>,
    s2: Seq<u8>,
    pos: int,
    p: int,
    r: Option<usize>,
)
    requires
        0 <= pos <= s0.len(),
        written_at(a, s0, s1, pos, Some(p as usize)),
        p == pos + a.len(),
        written_at(b, s1, s2, p, r),
    ensures
        written_at(a + b, s0, s2, pos, r),
{
    assert(s2.take(pos) =~= s0.take(pos)) by {
        assert forall|j: int| 0 <= j < pos implies s2.take(pos)[j] == s0.take(pos)[j] by {
            assert(s2.take(p)[j] == s1.take(p)[j]);
            assert(s1.take(pos)[j] == s0.take(pos)[j]);
        }
    }
    match r {
        Some(q) => {
            assert(s2.subrange(pos, pos + a.len() + b.len()) =~= a + b) by {
                assert forall|j: int| 0 <= j < a.len() implies s2[pos + j] == a[j] by {
                    assert(s2.take(p)[pos + j] == s1.take(p)[pos + j]);
                    assert(s1.subrange(pos, pos + a.len())[j] == a[j]);
                }
                assert forall|j: int| 0 <= j < b.len() implies s2[p + j] == b[j] by {
                    assert(s2.subrange(p, p + b.len())[j] == b[j]);
                }
            }
            assert(s2.skip(pos + (a + b).len()) =~= s0.skip(pos + (a + b).len())) by {
                assert forall|j: int| 0 <= j < s0.len() - (p + b.len()) implies #[trigger] s2.skip(
                    p + b.len(),
                )[j] == s0.skip(p + b.len())[j] by {
                    assert(s1.skip(p)[b.len() + j] == s0.skip(p)[b.len() + j]);
                }
            }
        },
        None => {
            assert(s2.skip(pos) =~= (a + b).take(s0.len() - pos)) by {
                assert forall|j: int| 0 <= j < s0.len() - pos implies #[trigger] s2.skip(pos)[j] == (a
                    + b).take(s0.len() - pos)[j] by {
                    if j < a.len() {
                        assert(s2.take(p)[pos + j] == s1.take(p)[pos + j]);
                        assert(s1.subrange(pos, pos + a.len())[j] == a[j]);
                    } else {
                        assert(s2.skip(p)[j - a.len()] == b.take(s1.len() - p)[j - a.len()]);
                    }
                }
            }
        },
    }
}

/// Text that does not fit, written as far as it goes, is also as much of any longer text
/// that begins with it as fits.
proof fn lemma_written_longer(a: Seq<u8>, b: Seq<u8>, s0: Seq<u8>, s1: Seq<u8>, pos: int)
    requires
        written_at(a, s0, s1, pos, None),
        a.len() <= b.len(),
        b.take(a.len() as int) == a,
        0 <= pos <= s0.len(),
    ensures
        written_at(b, s0, s1, pos, None),
{
    assert(b.take(s0.len() - pos) =~= a.take(s0.len() - pos)) by {
        assert forall|j: int| 0 <= j < s0.len() - pos implies #[trigger] b.take(s0.len() - pos)[j]
            == a.take(s0.len() - pos)[j] by {
            assert(b.take(a.len() as int)[j] == a[j]);
        }
    }
}

} // verus!
