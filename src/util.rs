use vstd::prelude::*;

use crate::tags::string_views;
use crate::text::{decimal_view, push_decimal, push_str, string_of};

verus! {

/// A count of seconds, read as hours, minutes and seconds.
pub struct Seconds(pub u16);

/// `n` with the singular or plural unit.
pub open spec fn unit_text(n: nat, singular: Seq<char>, plural: Seq<char>) -> Seq<char> {
    decimal_view(n) + if n == 1 {
        singular
    } else {
        plural
    }
}

/// `1 hour 2 minutes 5 seconds`, leaving out zero parts; `0 seconds` for
/// none.
pub open spec fn seconds_text(total: nat) -> Seq<char> {
    let h = total / 3600;
    let m = (total % 3600) / 60;
    let s = total % 60;
    (if h > 0 {
        unit_text(h, " hour"@, " hours"@) + if m > 0 || s > 0 {
            seq![' ']
        } else {
            Seq::empty()
        }
    } else {
        Seq::empty()
    }) + (if m > 0 {
        unit_text(m, " minute"@, " minutes"@) + if s > 0 {
            seq![' ']
        } else {
            Seq::empty()
        }
    } else {
        Seq::empty()
    }) + (if s > 0 {
        unit_text(s, " second"@, " seconds"@)
    } else {
        Seq::empty()
    }) + (if h == 0 && m == 0 && s == 0 {
        "0 seconds"@
    } else {
        Seq::empty()
    })
}

/// Appends `n` with its unit.
fn push_unit(buf: &mut Vec<char>, n: u64, singular: &str, plural: &str)
    ensures
        final(buf)@ == old(buf)@ + unit_text(n as nat, singular@, plural@),
{
    let ghost start = buf@;
    push_decimal(buf, n);
    if n == 1 {
        push_str(buf, singular);
    } else {
        push_str(buf, plural);
    }
    assert(buf@ =~= start + unit_text(n as nat, singular@, plural@));
}

impl Seconds {
    /// The duration in words.
    pub fn to_text(&self) -> (r: String)
        ensures
            r@ == seconds_text(self.0 as nat),
    {
        let total = self.0 as u64;
        let h = total / 3600;
        let m = (total % 3600) / 60;
        let s = total % 60;
        let mut buf: Vec<char> = Vec::new();
        if h > 0 {
            push_unit(&mut buf, h, " hour", " hours");
            if m > 0 || s > 0 {
                buf.push(' ');
            }
        }
        if m > 0 {
            push_unit(&mut buf, m, " minute", " minutes");
            if s > 0 {
                buf.push(' ');
            }
        }
        if s > 0 {
            push_unit(&mut buf, s, " second", " seconds");
        }
        if h == 0 && m == 0 && s == 0 {
            push_str(&mut buf, "0 seconds");
        }
        assert(buf@ =~= seconds_text(self.0 as nat));
        string_of(&buf)
    }
}

/// The texts with a space between each two.
pub open spec fn spaced_view(v: Seq<Seq<char>>) -> Seq<char>
    decreases v.len(),
{
    if v.len() == 0 {
        Seq::empty()
    } else if v.len() == 1 {
        v[0]
    } else {
        spaced_view(v.drop_last()) + seq![' '] + v.last()
    }
}

/// Strings read with a space between each two.
pub struct SpaceSeparatedStrings(pub Vec<String>);

impl SpaceSeparatedStrings {
    pub fn to_text(&self) -> (r: String)
        ensures
            r@ == spaced_view(string_views(self.0@)),
    {
        let v = &self.0;
        let mut buf: Vec<char> = Vec::new();
        let mut i: usize = 0;
        while i < v.len()
            invariant
                0 <= i <= v.len(),
                buf@ == spaced_view(string_views(v@.subrange(0, i as int))),
            decreases v.len() - i,
        {
            let ghost before = buf@;
            if i > 0 {
                buf.push(' ');
            }
            push_str(&mut buf, v[i].as_str());
            proof {
                let sub = string_views(v@.subrange(0, i + 1));
                assert(sub.drop_last() =~= string_views(v@.subrange(0, i as int)));
                assert(sub.last() == v@[i as int]@);
                if i == 0 {
                    assert(buf@ =~= sub[0]);
                } else {
                    assert(buf@ =~= before + seq![' '] + sub.last());
                }
            }
            i = i + 1;
        }
        assert(v@.subrange(0, v.len() as int) =~= v@);
        string_of(&buf)
    }
}

/// String slices read with a space between each two.
pub struct SpaceSeparatedStrs<'a>(pub Vec<&'a str>);

impl<'a> SpaceSeparatedStrs<'a> {
    pub fn to_text(&self) -> (r: String)
        ensures
            r@ == spaced_view(self.0@.map_values(|s: &str| s@)),
    {
        let v = &self.0;
        let ghost views = v@.map_values(|s: &str| s@);
        let mut buf: Vec<char> = Vec::new();
        let mut i: usize = 0;
        while i < v.len()
            invariant
                0 <= i <= v.len(),
                views == v@.map_values(|s: &str| s@),
                buf@ == spaced_view(views.subrange(0, i as int)),
            decreases v.len() - i,
        {
            let ghost before = buf@;
            if i > 0 {
                buf.push(' ');
            }
            push_str(&mut buf, v[i]);
            proof {
                let sub = views.subrange(0, i + 1);
                assert(sub.drop_last() =~= views.subrange(0, i as int));
                assert(sub.last() == v@[i as int]@);
                if i == 0 {
                    assert(buf@ =~= sub[0]);
                } else {
                    assert(buf@ =~= before + seq![' '] + sub.last());
                }
            }
            i = i + 1;
        }
        assert(views.subrange(0, v.len() as int) =~= views);
        string_of(&buf)
    }
}

/// An optional string that reads as its value, or as nothing.
pub struct OptDisplay(pub Option<String>);

impl OptDisplay {
    pub fn to_text(&self) -> (r: String)
        ensures
            r@ == match self.0 {
                Some(s) => s@,
                None => Seq::<char>::empty(),
            },
    {
        match &self.0 {
            Some(s) => s.clone(),
            None => String::new(),
        }
    }
}

} // verus!
