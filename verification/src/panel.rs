//! Panel hit-testing: the horizontal spans clickable text occupies, and the
//! mapping from a pointer coordinate to the span it falls in.  The bottom
//! panel's tasklist spans are computed here; the top panel's depend on
//! rendered text metrics and are only hit-tested.

use vstd::prelude::*;

verus! {

/// One clickable horizontal span, both ends inclusive.
#[derive(Clone, Copy, PartialEq, Eq, Structural, Debug)]
pub struct Span {
    pub start: u16,
    pub end: u16,
}

impl Span {
    /// The coordinate falls inside the span.
    pub open spec fn contains_spec(self, x: u16) -> bool {
        self.start <= x <= self.end
    }
}

/// The index the first span containing `x` has, if any.
pub open spec fn hit_test_spec(spans: Seq<Span>, x: u16) -> Option<int> {
    if exists|i: int| 0 <= i < spans.len() && (#[trigger] spans[i]).contains_spec(x) {
        Some(
            choose|i: int|
                0 <= i < spans.len() && (#[trigger] spans[i]).contains_spec(x) && (forall|j: int|
                    0 <= j < i ==> !(#[trigger] spans[j]).contains_spec(x)),
        )
    } else {
        None
    }
}

/// Map a horizontal pixel coordinate to the first span it falls in.
pub fn hit_test(spans: &Vec<Span>, x: u16) -> (r: Option<usize>)
    ensures
        match r {
            Some(i) => i < spans@.len() && spans@[i as int].contains_spec(x) && (forall|j: int|
                0 <= j < i ==> !(#[trigger] spans@[j]).contains_spec(x)) && hit_test_spec(
                spans@,
                x,
            ) == Some(i as int),
            None => hit_test_spec(spans@, x) is None,
        },
{
    let mut i: usize = 0;

    while i < spans.len()
        invariant
            i <= spans@.len(),
            forall|j: int| 0 <= j < i ==> !(#[trigger] spans@[j]).contains_spec(x),
        decreases spans@.len() - i,
    {
        if spans[i].start <= x && x <= spans[i].end {
            proof {
                let f = hit_test_spec(spans@, x);
                assert(spans@[i as int].contains_spec(x));
                let k = choose|k: int|
                    0 <= k < spans@.len() && (#[trigger] spans@[k]).contains_spec(x) && (forall|
                        j: int,
                    |
                        0 <= j < k ==> !(#[trigger] spans@[j]).contains_spec(x));
                assert(0 <= i < spans@.len() && spans@[i as int].contains_spec(x) && (forall|
                    j: int,
                |
                    0 <= j < i ==> !(#[trigger] spans@[j]).contains_spec(x)));
                if k < i {
                    assert(!spans@[k].contains_spec(x));
                } else if k > i {
                    assert(!spans@[i as int].contains_spec(x));
                }
            }
            return Some(i);
        }
        i = i + 1;
    }

    None
}

/// The tasklist spans for `count` entries on a screen of the given width:
/// entries share the width evenly, capped at 300 pixels; with the cap off
/// (justified layout) the last entry absorbs the remainder of the screen.
pub open spec fn tasklist_layout_spec(screen_width: u16, count: int) -> Seq<Span> {
    let even = screen_width as int / count;
    let entry_width = if even > 300 {
        300
    } else {
        even
    };
    let justified = !(even > 300);
    Seq::new(
        count as nat,
        |i: int|
            {
                let offset = i * entry_width;
                let width = if justified && i == count - 1 {
                    screen_width - entry_width
                } else {
                    entry_width
                };
                Span { start: offset as u16, end: (offset + width) as u16 }
            },
    )
}

/// Compute the tasklist spans of the bottom panel.
pub fn tasklist_layout(screen_width: u16, count: usize) -> (r: Vec<Span>)
    requires
        count >= 1,
        screen_width <= 32767,
    ensures
        r@ == tasklist_layout_spec(screen_width, count as int),
{
    let even = screen_width / (if count > 65535 {
        65535
    } else {
        count as u16
    });

    proof {
        if count > 65535 {
            assert(screen_width as int / count as int == 0) by (nonlinear_arith)
                requires
                    count > 65535,
                    0 <= screen_width <= 32767,
            ;
            assert(even == 0) by (nonlinear_arith)
                requires
                    even == screen_width as u16 / 65535u16,
                    screen_width <= 32767,
            ;
        } else {
            assert(even == screen_width as int / count as int);
        }
    }

    let (entry_width, justified) = if even > 300 {
        (300u16, false)
    } else {
        (even, true)
    };

    proof {
        assert(screen_width as int >= (screen_width as int / count as int) * count as int)
            by (nonlinear_arith)
            requires
                count >= 1,
                0 <= screen_width,
        ;
        if even > 300 {
            assert(count as int * 300 <= screen_width as int) by (nonlinear_arith)
                requires
                    count >= 1,
                    screen_width as int / count as int > 300,
                    screen_width as int >= (screen_width as int / count as int) * count as int,
                    even == screen_width as int / count as int,
            ;
        } else {
            assert(count as int * entry_width as int <= screen_width as int)
                by (nonlinear_arith)
                requires
                    count >= 1,
                    entry_width == screen_width as int / count as int,
                    screen_width as int >= (screen_width as int / count as int) * count as int,
            ;
        }
    }

    let mut spans: Vec<Span> = Vec::new();
    let mut offset: u16 = 0;
    let mut i: usize = 0;

    while i < count
        invariant
            i <= count,
            offset as int == i as int * entry_width as int,
            count >= 1,
            screen_width <= 32767,
            entry_width <= 32767,
            entry_width as int == (if screen_width as int / count as int > 300 {
                300
            } else {
                screen_width as int / count as int
            }),
            justified == !(screen_width as int / count as int > 300),
            justified ==> count as int * entry_width as int <= screen_width as int,
            !justified ==> count as int * 300 <= screen_width as int,
            !justified ==> entry_width == 300,
            spans@.len() == i,
            forall|j: int|
                0 <= j < i ==> #[trigger] spans@[j] == tasklist_layout_spec(
                    screen_width,
                    count as int,
                )[j],
        decreases count - i,
    {
        proof {
            assert(i as int * entry_width as int + entry_width as int <= count as int
                * entry_width as int) by (nonlinear_arith)
                requires
                    0 <= i < count,
                    0 <= entry_width,
            ;
            if justified {
                assert(i as int * entry_width as int + entry_width as int
                    <= screen_width as int);
            } else {
                assert(count as int * entry_width as int <= screen_width as int);
                assert(i as int * entry_width as int + entry_width as int
                    <= screen_width as int);
            }
        }

        let is_last = i == count - 1;

        let width = if justified && is_last {
            screen_width - entry_width
        } else {
            entry_width
        };

        let span = Span { start: offset, end: offset + width };
        spans.push(span);

        proof {
            assert(span == tasklist_layout_spec(screen_width, count as int)[i as int]);
        }

        offset = offset + entry_width;

        proof {
            assert(offset as int == (i as int + 1) * entry_width as int) by (nonlinear_arith)
                requires
                    offset as int == i as int * entry_width as int + entry_width as int,
            ;
        }

        i = i + 1;
    }

    proof {
        assert(spans@ =~= tasklist_layout_spec(screen_width, count as int));
    }

    spans
}

} // verus!
