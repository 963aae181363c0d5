//! A display census, as text.
//!
//! The census itself asks CoreGraphics which displays are active; this is
//! the table it prints, so a new virtual display can be seen to appear and
//! then disappear.

use crate::text::{decimal, decimal_chars, hex_chars, hex_upper, pad_left, pad_right, push_pad_left, push_pad_right, push_str};
use vstd::prelude::*;

verus! {

/// One active display, as public Quartz Display Services report it.
#[derive(Debug, Clone, PartialEq, Eq)]
pub struct DisplayInfo {
    pub id: u32,
    pub width: usize,
    pub height: usize,
    pub builtin: bool,
    pub vendor: u32,
}

/// One line of the census.
pub open spec fn display_line(d: DisplayInfo, highlight: Option<u32>) -> Seq<char> {
    "      "@ + pad_left(decimal(d.id as nat), 10, ' ') + "  "@ + pad_left(decimal(d.width as nat), 5, ' ')
        + " x "@ + pad_right(decimal(d.height as nat), 5) + " "@ + pad_right(
        if d.builtin {
            "built-in"@
        } else {
            "external"@
        },
        9,
    ) + " vendor 0x"@ + pad_left(hex_upper(d.vendor as nat), 4, '0') + if highlight == Some(d.id) {
        " <-- ours"@
    } else {
        ""@
    }
}

/// Lines joined with newlines, with no newline after the last.
pub open spec fn join_lines(lines: Seq<Seq<char>>) -> Seq<char>
    decreases lines.len(),
{
    if lines.len() == 0 {
        Seq::empty()
    } else if lines.len() == 1 {
        lines[0]
    } else {
        join_lines(lines.drop_last()) + "\n"@ + lines.last()
    }
}

/// The census table for a list of displays, marking `highlight` as ours.
pub open spec fn census(list: Seq<DisplayInfo>, highlight: Option<u32>) -> Seq<char> {
    join_lines(list.map_values(|d: DisplayInfo| display_line(d, highlight)))
}

fn push_line(s: &mut String, d: &DisplayInfo, highlight: Option<u32>)
    ensures
        final(s)@ == old(s)@ + display_line(*d, highlight),
{
    let ghost start = s@;
    push_str(s, "      ");
    push_pad_left(s, decimal_chars(d.id as u64).as_slice(), 10, ' ');
    push_str(s, "  ");
    push_pad_left(s, decimal_chars(d.width as u64).as_slice(), 5, ' ');
    push_str(s, " x ");
    push_pad_right(s, decimal_chars(d.height as u64).as_slice(), 5);
    push_str(s, " ");
    let kind: Vec<char> = if d.builtin {
        vec!['b', 'u', 'i', 'l', 't', '-', 'i', 'n']
    } else {
        vec!['e', 'x', 't', 'e', 'r', 'n', 'a', 'l']
    };
    proof {
        reveal_strlit("built-in");
        reveal_strlit("external");
        if d.builtin {
            assert(kind@ =~= "built-in"@);
        } else {
            assert(kind@ =~= "external"@);
        }
    }
    push_pad_right(s, kind.as_slice(), 9);
    push_str(s, " vendor 0x");
    push_pad_left(s, hex_chars(d.vendor as u64).as_slice(), 4, '0');
    let ours = match highlight {
        Some(h) => h == d.id,
        None => false,
    };
    if ours {
        push_str(s, " <-- ours");
    } else {
        push_str(s, "");
    }
    assert(s@ =~= start + display_line(*d, highlight));
}

/// Renders the census: one line per display, marking `highlight` as ours.
pub fn render(list: &[DisplayInfo], highlight: Option<u32>) -> (out: String)
    ensures
        out@ == census(list@, highlight),
{
    let ghost lines = list@.map_values(|d: DisplayInfo| display_line(d, highlight));
    let mut out = String::new();
    let mut i: usize = 0;
    while i < list.len()
        invariant
            i <= list.len(),
            lines == list@.map_values(|d: DisplayInfo| display_line(d, highlight)),
            out@ == join_lines(lines.take(i as int)),
        decreases list.len() - i,
    {
        let ghost before = out@;
        if i > 0 {
            push_str(&mut out, "\n");
        }
        push_line(&mut out, &list[i], highlight);
        proof {
            let t = lines.take(i + 1);
            assert(t.drop_last() =~= lines.take(i as int));
            assert(t.last() == display_line(list@[i as int], highlight));
            if i == 0 {
                assert(before =~= Seq::<char>::empty());
                assert(out@ =~= t[0]);
            }
        }
        i += 1;
    }
    proof {
        assert(lines.take(i as int) =~= lines);
    }
    out
}

} // verus!
