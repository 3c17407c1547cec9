//! Which source attributes are carried over to the destination.
use vstd::prelude::*;
use crate::text::{chars_of, string_of, same_chars, concat_chars, split_of, pieces};
use crate::trusted::{trim_whitespace, trim_text};

verus! {

#[derive(Debug, Clone, Copy, PartialEq, Eq, Structural)]
pub struct PreserveAttr {
    pub mode: bool,
    pub ownership: bool,
    pub timestamps: bool,
    pub links: bool,
    pub context: bool,
    pub xattr: bool,
}

pub open spec fn attrs(
    mode: bool,
    ownership: bool,
    timestamps: bool,
    links: bool,
    context: bool,
    xattr: bool,
) -> PreserveAttr {
    PreserveAttr { mode, ownership, timestamps, links, context, xattr }
}

/// Mode, ownership and timestamps.
pub open spec fn default_attrs() -> PreserveAttr {
    attrs(true, true, true, false, false, false)
}

pub open spec fn no_attrs() -> PreserveAttr {
    attrs(false, false, false, false, false, false)
}

pub open spec fn all_attrs() -> PreserveAttr {
    attrs(true, true, true, true, true, true)
}

/// Where reading a list of attribute names has got to.
pub enum NameScan {
    Reading(PreserveAttr),
    All,
    Unknown(Seq<char>),
}

/// One attribute name added to a set.
pub open spec fn with_name(a: PreserveAttr, t: Seq<char>) -> NameScan {
    if t.len() == 0 {
        NameScan::Reading(a)
    } else if t == "mode"@ {
        NameScan::Reading(PreserveAttr { mode: true, ..a })
    } else if t == "ownership"@ {
        NameScan::Reading(PreserveAttr { ownership: true, ..a })
    } else if t == "timestamps"@ {
        NameScan::Reading(PreserveAttr { timestamps: true, ..a })
    } else if t == "xattr"@ {
        NameScan::Reading(PreserveAttr { xattr: true, ..a })
    } else if t == "context"@ {
        NameScan::Reading(PreserveAttr { context: true, ..a })
    } else if t == "links"@ {
        NameScan::Reading(PreserveAttr { links: true, ..a })
    } else if t == "all"@ {
        NameScan::All
    } else {
        NameScan::Unknown(t)
    }
}

/// The names read left to right; `all` or an unknown name ends the scan.
pub open spec fn scan_names(ps: Seq<Seq<char>>) -> NameScan
    decreases ps.len(),
{
    if ps.len() == 0 {
        NameScan::Reading(no_attrs())
    } else {
        match scan_names(ps.drop_last()) {
            NameScan::Reading(a) => with_name(a, trim_whitespace(ps.last())),
            other => other,
        }
    }
}

/// The attribute set a comma-separated list names, or the first unknown name.
pub open spec fn parse_attrs(s: Seq<char>) -> Result<PreserveAttr, Seq<char>> {
    if s.len() == 0 {
        Ok(default_attrs())
    } else if s == "all"@ {
        Ok(all_attrs())
    } else {
        match scan_names(pieces(s, ',')) {
            NameScan::Reading(a) => Ok(a),
            NameScan::All => Ok(all_attrs()),
            NameScan::Unknown(t) => Err(t),
        }
    }
}

pub proof fn lemma_scan_names_extends(ps: Seq<Seq<char>>, k: int)
    requires
        0 <= k <= ps.len(),
        !(scan_names(ps.subrange(0, k)) is Reading),
    ensures
        scan_names(ps) == scan_names(ps.subrange(0, k)),
    decreases ps.len() - k,
{
    if k < ps.len() {
        assert(ps.subrange(0, k + 1).drop_last() =~= ps.subrange(0, k));
        lemma_scan_names_extends(ps, k + 1);
    } else {
        assert(ps.subrange(0, k) =~= ps);
    }
}

/// Whether `v` spells `w`.
fn spells(v: &Vec<char>, w: &str) -> (r: bool)
    ensures
        r == (v@ == w@),
{
    same_chars(v, &chars_of(w))
}

impl Default for PreserveAttr {
    fn default() -> (r: PreserveAttr)
        ensures
            r == default_attrs(),
    {
        PreserveAttr { mode: true, ownership: true, timestamps: true, links: false, context: false, xattr: false }
    }
}

impl PreserveAttr {
    pub fn none() -> (r: PreserveAttr)
        ensures
            r == no_attrs(),
    {
        PreserveAttr {
            mode: false,
            ownership: false,
            timestamps: false,
            links: false,
            context: false,
            xattr: false,
        }
    }

    pub fn all() -> (r: PreserveAttr)
        ensures
            r == all_attrs(),
    {
        PreserveAttr { mode: true, ownership: true, timestamps: true, links: true, context: true, xattr: true }
    }

    /// Whether any attribute is to be applied after a transfer (hard-link
    /// topology is not an attribute of the file).
    pub fn any_requested(&self) -> (r: bool)
        ensures
            r == (self.mode || self.ownership || self.timestamps || self.context || self.xattr),
    {
        self.mode || self.ownership || self.timestamps || self.context || self.xattr
    }

    /// Reads an attribute list such as `mode,timestamps`. An empty text gives
    /// the default set; `all` anywhere gives every attribute; an unknown name
    /// is reported as `Unknown attribute: <name>`.
    pub fn from_string(s: &str) -> (r: Result<PreserveAttr, String>)
        ensures
            r matches Ok(a) ==> parse_attrs(s@) == Ok::<PreserveAttr, Seq<char>>(a),
            r matches Err(m) ==> parse_attrs(s@) matches Err(t) && m@ == "Unknown attribute: "@ + t,
    {
        let v = chars_of(s);
        if v.len() == 0 {
            return Ok(PreserveAttr::default());
        }
        if spells(&v, "all") {
            return Ok(PreserveAttr::all());
        }
        let ps = split_of(&v, ',');
        let mut attr = PreserveAttr::none();
        let mut i: usize = 0;
        proof {
            assert(pieces(s@, ',').subrange(0, 0) =~= Seq::<Seq<char>>::empty());
        }
        while i < ps.len()
            invariant
                i <= ps.len(),
                v@ == s@,
                s@.len() > 0,
                s@ != "all"@,
                crate::text::char_seqs(ps@) == pieces(s@, ','),
                scan_names(pieces(s@, ',').subrange(0, i as int)) == NameScan::Reading(attr),
            decreases ps.len() - i,
        {
            proof {
                assert(pieces(s@, ',').subrange(0, i + 1).drop_last() =~= pieces(s@, ',').subrange(0, i as int));
                assert(pieces(s@, ',').subrange(0, i + 1).last() == ps@[i as int]@);
            }
            let piece = string_of(&ps[i]);
            let t = chars_of(trim_text(piece.as_str()));
            if t.len() == 0 {
            } else if spells(&t, "mode") {
                attr.mode = true;
            } else if spells(&t, "ownership") {
                attr.ownership = true;
            } else if spells(&t, "timestamps") {
                attr.timestamps = true;
            } else if spells(&t, "xattr") {
                attr.xattr = true;
            } else if spells(&t, "context") {
                attr.context = true;
            } else if spells(&t, "links") {
                attr.links = true;
            } else if spells(&t, "all") {
                proof {
                    lemma_scan_names_extends(pieces(s@, ','), i + 1);
                }
                return Ok(PreserveAttr::all());
            } else {
                proof {
                    lemma_scan_names_extends(pieces(s@, ','), i + 1);
                }
                let msg = concat_chars(&chars_of("Unknown attribute: "), &t);
                return Err(string_of(&msg));
            }
            i = i + 1;
        }
        proof {
            assert(pieces(s@, ',').subrange(0, ps@.len() as int) =~= pieces(s@, ','));
        }
        Ok(attr)
    }
}

} // verus!
