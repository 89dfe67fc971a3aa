//! A readable dump of a peer's buffer capabilities: one summary line, then
//! each fourcc (ascending) with its modifiers.

use vstd::prelude::*;
use vstd::std_specs::iter::IteratorSpec;
use crate::btree_order::lemma_u32_keys_increase;
use crate::mpris::hex_bytes;
use crate::negotiate::{ModCap, PeerCaps};
use crate::text::{decimal, hex, hex_fixed, owned, push_char, push_decimal, push_hex, push_hex_fixed, push_str};

verus! {

broadcast use {vstd::std_specs::btree::group_btree_axioms, vstd::laws_cmp::group_laws_cmp};

/// The four bytes of a fourcc, first character first.
pub open spec fn fourcc_bytes(f: u32) -> Seq<int> {
    seq![(f % 256) as int, ((f / 256) % 256) as int, ((f / 65536) % 256) as int, (f / 16777216) as int]
}

pub open spec fn printable(b: int) -> bool {
    0x20 <= b <= 0x7e
}

/// A fourcc as its four characters in quotes when all are printable ASCII,
/// else as eight hex digits.
pub open spec fn spec_fourcc_str(f: u32) -> Seq<char> {
    let b = fourcc_bytes(f);
    if printable(b[0]) && printable(b[1]) && printable(b[2]) && printable(b[3]) {
        seq!['\'', b[0] as char, b[1] as char, b[2] as char, b[3] as char, '\'']
    } else {
        "0x"@ + hex_fixed(f as nat, 8)
    }
}

pub fn fourcc_str(fourcc: u32) -> (r: String)
    ensures
        r@ == spec_fourcc_str(fourcc),
{
    let b0: u32 = fourcc % 256;
    let b1: u32 = (fourcc / 256) % 256;
    let b2: u32 = (fourcc / 65536) % 256;
    let b3: u32 = fourcc / 16777216;
    let ok = |b: u32| -> (r: bool)
        ensures
            r == printable(b as int),
        { 0x20 <= b && b <= 0x7e };
    if ok(b0) && ok(b1) && ok(b2) && ok(b3) {
        let mut s = String::new();
        push_char(&mut s, '\'');
        push_char(&mut s, (b0 as u8) as char);
        push_char(&mut s, (b1 as u8) as char);
        push_char(&mut s, (b2 as u8) as char);
        push_char(&mut s, (b3 as u8) as char);
        push_char(&mut s, '\'');
        proof {
            assert(s@ =~= spec_fourcc_str(fourcc));
        }
        s
    } else {
        let mut s = owned("0x");
        push_hex_fixed(&mut s, fourcc as u64, 8);
        s
    }
}

/// Sixteen UUID bytes as 32 lowercase hex digits.
pub fn hex_uuid(bytes: &[u8; 16]) -> (r: String)
    ensures
        r@ == hex_bytes(bytes@),
{
    let mut out = String::new();
    let mut i: usize = 0;
    while i < 16
        invariant
            0 <= i <= 16,
            bytes@.len() == 16,
            out@ == hex_bytes(bytes@.take(i as int)),
        decreases 16 - i,
    {
        proof {
            assert(bytes@.take(i + 1).drop_last() =~= bytes@.take(i as int));
        }
        push_hex_fixed(&mut out, bytes[i] as u64, 2);
        i = i + 1;
    }
    proof {
        assert(bytes@.take(16) =~= bytes@);
    }
    out
}

/// The summary line: identity, secondary capabilities and largest extent.
pub open spec fn caps_header(prefix: Seq<char>, caps: PeerCaps) -> Seq<char> {
    prefix + ": device_uuid="@ + hex_bytes(caps.identity.device_uuid@) + " driver_uuid="@ + hex_bytes(
        caps.identity.driver_uuid@,
    ) + " drm_render="@ + decimal(caps.identity.drm.major as nat) + ":"@ + decimal(
        caps.identity.drm.minor as nat,
    ) + " sync=0x"@ + hex(caps.sync as nat) + " color=0x"@ + hex(caps.color as nat) + " mem_hint=0x"@
        + hex(caps.mem_hint as nat) + " extent_max="@ + decimal(caps.extent_max.0 as nat) + "x"@ + decimal(
        caps.extent_max.1 as nat,
    )
}

/// The line that opens a fourcc's block.
pub open spec fn fourcc_line(prefix: Seq<char>, f: u32, n: nat) -> Seq<char> {
    prefix + ": fourcc="@ + spec_fourcc_str(f) + " (0x"@ + hex_fixed(f as nat, 8) + ") — "@ + decimal(n)
        + " modifier"@ + if n == 1 {
        ""@
    } else {
        "s"@
    }
}

/// The line of one modifier.
pub open spec fn modifier_line(prefix: Seq<char>, m: ModCap) -> Seq<char> {
    prefix + ":   modifier=0x"@ + hex_fixed(m.modifier as nat, 16) + " planes="@ + decimal(m.plane_count as nat)
}

/// The lines of one fourcc: its line, then one per modifier.
pub open spec fn fourcc_block(prefix: Seq<char>, f: u32, mods: Seq<ModCap>) -> Seq<Seq<char>> {
    seq![fourcc_line(prefix, f, mods.len())] + mods.map_values(|m: ModCap| modifier_line(prefix, m))
}

/// The blocks of the given fourccs, in order.
pub open spec fn dump_body(prefix: Seq<char>, es: Seq<(u32, Seq<ModCap>)>) -> Seq<Seq<char>>
    decreases es.len(),
{
    if es.len() == 0 {
        Seq::empty()
    } else {
        dump_body(prefix, es.drop_last()) + fourcc_block(prefix, es.last().0, es.last().1)
    }
}

/// `es` lists the entries of `m`, each once, by increasing fourcc.
pub open spec fn in_fourcc_order(es: Seq<(u32, Seq<ModCap>)>, m: Map<u32, Vec<ModCap>>) -> bool {
    &&& es.len() == m.dom().len()
    &&& forall|i: int| 0 <= i < es.len() ==> m.contains_key(#[trigger] es[i].0) && m[es[i].0]@ == es[i].1
    &&& forall|i: int, j: int| 0 <= i < j < es.len() ==> es[i].0 < es[j].0
}

pub open spec fn line_views(s: Seq<String>) -> Seq<Seq<char>> {
    s.map_values(|x: String| x@)
}

fn push_line(lines: &mut Vec<String>, line: String)
    ensures
        line_views(final(lines)@) == line_views(old(lines)@).push(line@),
{
    let ghost before = lines@;
    lines.push(line);
    proof {
        assert(line_views(lines@) =~= line_views(before).push(line@));
    }
}

impl PeerCaps {
    /// The summary line of these capabilities.
    pub fn summary_line(&self, prefix: &str) -> (r: String)
        ensures
            r@ == caps_header(prefix@, *self),
    {
        let mut s = owned(prefix);
        push_str(&mut s, ": device_uuid=");
        let d = hex_uuid(&self.identity.device_uuid);
        push_str(&mut s, d.as_str());
        push_str(&mut s, " driver_uuid=");
        let v = hex_uuid(&self.identity.driver_uuid);
        push_str(&mut s, v.as_str());
        push_str(&mut s, " drm_render=");
        push_decimal(&mut s, self.identity.drm.major as u64);
        push_str(&mut s, ":");
        push_decimal(&mut s, self.identity.drm.minor as u64);
        push_str(&mut s, " sync=0x");
        push_hex(&mut s, self.sync as u64);
        push_str(&mut s, " color=0x");
        push_hex(&mut s, self.color as u64);
        push_str(&mut s, " mem_hint=0x");
        push_hex(&mut s, self.mem_hint as u64);
        push_str(&mut s, " extent_max=");
        push_decimal(&mut s, self.extent_max.0 as u64);
        push_str(&mut s, "x");
        push_decimal(&mut s, self.extent_max.1 as u64);
        proof {
            assert(s@ =~= caps_header(prefix@, *self));
        }
        s
    }

    /// The dump, line by line: the summary, then each fourcc in ascending
    /// order followed by its modifiers.
    pub fn log_dump(&self, prefix: &str) -> (r: Vec<String>)
        ensures
            exists|es: Seq<(u32, Seq<ModCap>)>| #[trigger] in_fourcc_order(es, self.formats.by_fourcc@)
                && line_views(r@) == seq![caps_header(prefix@, *self)] + dump_body(prefix@, es),
    {
        let mut lines: Vec<String> = Vec::new();
        push_line(&mut lines, self.summary_line(prefix));
        let ghost m = self.formats.by_fourcc@;
        let iter = self.formats.by_fourcc.iter();
        let ghost seq0 = iter.remaining();
        let ghost es = seq0.map_values(|kv: (&u32, &Vec<ModCap>)| (*kv.0, kv.1@));
        proof {
            lemma_u32_keys_increase(seq0);
            assert(line_views(lines@) =~= seq![caps_header(prefix@, *self)] + dump_body(prefix@, es.take(0)));
        }
        for (fourcc, mods) in it: iter
            invariant
                it.seq() == seq0,
                m == self.formats.by_fourcc@,
                es == seq0.map_values(|kv: (&u32, &Vec<ModCap>)| (*kv.0, kv.1@)),
                line_views(lines@) == seq![caps_header(prefix@, *self)] + dump_body(prefix@, es.take(it.index() as int)),
        {
            let ghost k = it.index() as int;
            let ghost before = line_views(lines@);
            let n = mods.len();
            let mut head = owned(prefix);
            push_str(&mut head, ": fourcc=");
            let fs = fourcc_str(*fourcc);
            push_str(&mut head, fs.as_str());
            push_str(&mut head, " (0x");
            push_hex_fixed(&mut head, *fourcc as u64, 8);
            push_str(&mut head, ") — ");
            push_decimal(&mut head, n as u64);
            push_str(&mut head, " modifier");
            if n != 1 {
                push_str(&mut head, "s");
            }
            proof {
                reveal_strlit("");
                assert(head@ =~= fourcc_line(prefix@, *fourcc, n as nat));
            }
            push_line(&mut lines, head);
            let mut j: usize = 0;
            while j < n
                invariant
                    0 <= j <= n,
                    n == mods@.len(),
                    line_views(lines@) == before.push(fourcc_line(prefix@, *fourcc, n as nat)) + mods@.take(
                        j as int,
                    ).map_values(|mc: ModCap| modifier_line(prefix@, mc)),
                decreases n - j,
            {
                let mc = mods[j];
                let mut line = owned(prefix);
                push_str(&mut line, ":   modifier=0x");
                push_hex_fixed(&mut line, mc.modifier, 16);
                push_str(&mut line, " planes=");
                push_decimal(&mut line, mc.plane_count as u64);
                proof {
                    assert(line@ =~= modifier_line(prefix@, mc));
                }
                push_line(&mut lines, line);
                proof {
                    assert(mods@.take(j + 1).map_values(|mc: ModCap| modifier_line(prefix@, mc)) =~= mods@.take(
                        j as int,
                    ).map_values(|mc: ModCap| modifier_line(prefix@, mc)).push(modifier_line(prefix@, mc)));
                }
                j = j + 1;
            }
            proof {
                assert(mods@.take(n as int) =~= mods@);
                assert(es.take(k + 1).drop_last() =~= es.take(k));
                assert(es.take(k + 1).last() == (*fourcc, mods@));
                assert(fourcc_block(prefix@, *fourcc, mods@) =~= seq![fourcc_line(prefix@, *fourcc, n as nat)]
                    + mods@.map_values(|mc: ModCap| modifier_line(prefix@, mc)));
                assert(line_views(lines@) =~= seq![caps_header(prefix@, *self)] + dump_body(prefix@, es.take(k + 1)));
            }
        }
        proof {
            assert(es.take(seq0.len() as int) =~= es);
            assert(in_fourcc_order(es, m));
        }
        lines
    }
}

} // verus!
