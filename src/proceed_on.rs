use vstd::prelude::*;
use crate::errors::ParseError;

verus! {

/// A return code of a fast-path (or inbound steering) program after which the
/// dispatcher may go on to the next slot.
#[derive(Debug, Clone, Copy, PartialEq, Eq, Hash, Structural)]
pub enum XdpProceedOnEntry {
    Aborted,
    Drop,
    Pass,
    Tx,
    Redirect,
    DispatcherReturn,
}

/// A return code of an outbound steering program after which the dispatcher
/// may go on to the next slot.
#[derive(Debug, Clone, Copy, PartialEq, Eq, Hash, Structural)]
pub enum TcProceedOnEntry {
    Unspec,
    ActOk,
    Reclassify,
    Shot,
    Pipe,
    Stolen,
    Queued,
    Repeat,
    Redirect,
    Trap,
    DispatcherReturn,
}

/// The entry a token names, if any.
pub open spec fn xdp_entry_of_token(t: Seq<char>) -> Option<XdpProceedOnEntry> {
    if t == "aborted"@ {
        Some(XdpProceedOnEntry::Aborted)
    } else if t == "drop"@ {
        Some(XdpProceedOnEntry::Drop)
    } else if t == "pass"@ {
        Some(XdpProceedOnEntry::Pass)
    } else if t == "tx"@ {
        Some(XdpProceedOnEntry::Tx)
    } else if t == "redirect"@ {
        Some(XdpProceedOnEntry::Redirect)
    } else if t == "dispatcher_return"@ {
        Some(XdpProceedOnEntry::DispatcherReturn)
    } else {
        None
    }
}

/// The entry a token names, if any.
pub open spec fn tc_entry_of_token(t: Seq<char>) -> Option<TcProceedOnEntry> {
    if t == "unspec"@ {
        Some(TcProceedOnEntry::Unspec)
    } else if t == "ok"@ {
        Some(TcProceedOnEntry::ActOk)
    } else if t == "reclassify"@ {
        Some(TcProceedOnEntry::Reclassify)
    } else if t == "shot"@ {
        Some(TcProceedOnEntry::Shot)
    } else if t == "pipe"@ {
        Some(TcProceedOnEntry::Pipe)
    } else if t == "stolen"@ {
        Some(TcProceedOnEntry::Stolen)
    } else if t == "queued"@ {
        Some(TcProceedOnEntry::Queued)
    } else if t == "repeat"@ {
        Some(TcProceedOnEntry::Repeat)
    } else if t == "redirect"@ {
        Some(TcProceedOnEntry::Redirect)
    } else if t == "trap"@ {
        Some(TcProceedOnEntry::Trap)
    } else if t == "dispatcher_return"@ {
        Some(TcProceedOnEntry::DispatcherReturn)
    } else {
        None
    }
}

impl XdpProceedOnEntry {
    /// The bit of this return code in a dispatcher slot's mask.
    pub open spec fn bit(self) -> u32 {
        match self {
            XdpProceedOnEntry::Aborted => 0,
            XdpProceedOnEntry::Drop => 1,
            XdpProceedOnEntry::Pass => 2,
            XdpProceedOnEntry::Tx => 3,
            XdpProceedOnEntry::Redirect => 4,
            XdpProceedOnEntry::DispatcherReturn => 31,
        }
    }

    pub fn from_token(t: &String) -> (r: Result<XdpProceedOnEntry, ParseError>)
        ensures
            match xdp_entry_of_token(t@) {
                Some(e) => r == Ok::<XdpProceedOnEntry, ParseError>(e),
                None => r matches Err(ParseError::InvalidProceedOn { proceedon }) && proceedon@ == t@,
            },
    {
        if *t == String::from_str("aborted") {
            Ok(XdpProceedOnEntry::Aborted)
        } else if *t == String::from_str("drop") {
            Ok(XdpProceedOnEntry::Drop)
        } else if *t == String::from_str("pass") {
            Ok(XdpProceedOnEntry::Pass)
        } else if *t == String::from_str("tx") {
            Ok(XdpProceedOnEntry::Tx)
        } else if *t == String::from_str("redirect") {
            Ok(XdpProceedOnEntry::Redirect)
        } else if *t == String::from_str("dispatcher_return") {
            Ok(XdpProceedOnEntry::DispatcherReturn)
        } else {
            Err(ParseError::InvalidProceedOn { proceedon: t.clone() })
        }
    }

    pub fn bit_index(&self) -> (r: u32)
        ensures
            r == self.bit(),
    {
        match self {
            XdpProceedOnEntry::Aborted => 0,
            XdpProceedOnEntry::Drop => 1,
            XdpProceedOnEntry::Pass => 2,
            XdpProceedOnEntry::Tx => 3,
            XdpProceedOnEntry::Redirect => 4,
            XdpProceedOnEntry::DispatcherReturn => 31,
        }
    }
}

impl TcProceedOnEntry {
    /// The bit of this return code in a dispatcher slot's mask: one above the
    /// code itself, so that `unspec` (code -1) takes bit 0.
    pub open spec fn bit(self) -> u32 {
        match self {
            TcProceedOnEntry::Unspec => 0,
            TcProceedOnEntry::ActOk => 1,
            TcProceedOnEntry::Reclassify => 2,
            TcProceedOnEntry::Shot => 3,
            TcProceedOnEntry::Pipe => 4,
            TcProceedOnEntry::Stolen => 5,
            TcProceedOnEntry::Queued => 6,
            TcProceedOnEntry::Repeat => 7,
            TcProceedOnEntry::Redirect => 8,
            TcProceedOnEntry::Trap => 9,
            TcProceedOnEntry::DispatcherReturn => 31,
        }
    }

    pub fn from_token(t: &String) -> (r: Result<TcProceedOnEntry, ParseError>)
        ensures
            match tc_entry_of_token(t@) {
                Some(e) => r == Ok::<TcProceedOnEntry, ParseError>(e),
                None => r matches Err(ParseError::InvalidProceedOn { proceedon }) && proceedon@ == t@,
            },
    {
        if *t == String::from_str("unspec") {
            Ok(TcProceedOnEntry::Unspec)
        } else if *t == String::from_str("ok") {
            Ok(TcProceedOnEntry::ActOk)
        } else if *t == String::from_str("reclassify") {
            Ok(TcProceedOnEntry::Reclassify)
        } else if *t == String::from_str("shot") {
            Ok(TcProceedOnEntry::Shot)
        } else if *t == String::from_str("pipe") {
            Ok(TcProceedOnEntry::Pipe)
        } else if *t == String::from_str("stolen") {
            Ok(TcProceedOnEntry::Stolen)
        } else if *t == String::from_str("queued") {
            Ok(TcProceedOnEntry::Queued)
        } else if *t == String::from_str("repeat") {
            Ok(TcProceedOnEntry::Repeat)
        } else if *t == String::from_str("redirect") {
            Ok(TcProceedOnEntry::Redirect)
        } else if *t == String::from_str("trap") {
            Ok(TcProceedOnEntry::Trap)
        } else if *t == String::from_str("dispatcher_return") {
            Ok(TcProceedOnEntry::DispatcherReturn)
        } else {
            Err(ParseError::InvalidProceedOn { proceedon: t.clone() })
        }
    }

    pub fn bit_index(&self) -> (r: u32)
        ensures
            r == self.bit(),
    {
        match self {
            TcProceedOnEntry::Unspec => 0,
            TcProceedOnEntry::ActOk => 1,
            TcProceedOnEntry::Reclassify => 2,
            TcProceedOnEntry::Shot => 3,
            TcProceedOnEntry::Pipe => 4,
            TcProceedOnEntry::Stolen => 5,
            TcProceedOnEntry::Queued => 6,
            TcProceedOnEntry::Repeat => 7,
            TcProceedOnEntry::Redirect => 8,
            TcProceedOnEntry::Trap => 9,
            TcProceedOnEntry::DispatcherReturn => 31,
        }
    }
}


/// The proceed-on set of one fast-path or inbound steering program, in the order given.
#[derive(Debug, Clone)]
pub struct XdpProceedOn(pub Vec<XdpProceedOnEntry>);

/// The set used where a request gives none: `pass` and `dispatcher_return`.
pub open spec fn xdp_default_entries() -> Seq<XdpProceedOnEntry> {
    seq![XdpProceedOnEntry::Pass, XdpProceedOnEntry::DispatcherReturn]
}

/// Whether every token names an entry.
pub open spec fn xdp_tokens_valid(ts: Seq<String>) -> bool {
    forall|i: int| 0 <= i < ts.len() ==> (xdp_entry_of_token(#[trigger] ts[i]@) is Some)
}

/// The mask a dispatcher slot holds for these entries: one bit for each.
pub open spec fn xdp_mask_of(s: Seq<XdpProceedOnEntry>) -> u32
    decreases s.len(),
{
    if s.len() == 0 {
        0
    } else {
        xdp_mask_of(s.drop_last()) | (1u32 << s.last().bit())
    }
}

impl XdpProceedOn {
    /// The default set.
    pub fn default_set() -> (r: XdpProceedOn)
        ensures
            r.0@ == xdp_default_entries(),
    {
        let mut v: Vec<XdpProceedOnEntry> = Vec::new();
        v.push(XdpProceedOnEntry::Pass);
        v.push(XdpProceedOnEntry::DispatcherReturn);
        proof {
            assert(v@ =~= xdp_default_entries());
        }
        XdpProceedOn(v)
    }

    /// Parses the tokens of a request. No tokens give the default set; the
    /// first unknown token is rejected by name.
    pub fn from_strings(ts: &Vec<String>) -> (r: Result<XdpProceedOn, ParseError>)
        ensures
            ts@.len() == 0 ==> (r matches Ok(p) && p.0@ == xdp_default_entries()),
            ts@.len() > 0 && xdp_tokens_valid(ts@) ==> (r matches Ok(p) && p.0@.len() == ts@.len()
                && forall|i: int| 0 <= i < ts@.len() ==> Some(#[trigger] p.0@[i]) == xdp_entry_of_token(ts@[i]@)),
            !xdp_tokens_valid(ts@) ==> (r matches Err(ParseError::InvalidProceedOn { proceedon })
                && exists|i: int| 0 <= i < ts@.len() && ts@[i]@ == proceedon@
                    && xdp_entry_of_token(#[trigger] ts@[i]@) is None
                    && forall|j: int| 0 <= j < i ==> (xdp_entry_of_token(#[trigger] ts@[j]@) is Some)),
    {
        if ts.len() == 0 {
            return Ok(XdpProceedOn::default_set());
        }
        let mut out: Vec<XdpProceedOnEntry> = Vec::new();
        let mut i: usize = 0;
        while i < ts.len()
            invariant
                i <= ts@.len(),
                out@.len() == i,
                forall|j: int| 0 <= j < i ==> Some(#[trigger] out@[j]) == xdp_entry_of_token(ts@[j]@),
            decreases ts@.len() - i,
        {
            match XdpProceedOnEntry::from_token(&ts[i]) {
                Ok(e) => out.push(e),
                Err(err) => {
                    proof {
                        assert forall|j: int| 0 <= j < i implies xdp_entry_of_token(#[trigger] ts@[j]@) is Some by {
                            assert(Some(out@[j]) == xdp_entry_of_token(ts@[j]@));
                        }
                    }
                    return Err(err);
                },
            }
            i = i + 1;
        }
        proof {
            assert forall|j: int| 0 <= j < ts@.len() implies xdp_entry_of_token(#[trigger] ts@[j]@) is Some by {
                assert(Some(out@[j]) == xdp_entry_of_token(ts@[j]@));
            }
        }
        Ok(XdpProceedOn(out))
    }

    /// The dispatcher slot mask for this set.
    pub fn mask(&self) -> (r: u32)
        ensures
            r == xdp_mask_of(self.0@),
    {
        let mut m: u32 = 0;
        let mut i: usize = 0;
        while i < self.0.len()
            invariant
                i <= self.0@.len(),
                m == xdp_mask_of(self.0@.take(i as int)),
            decreases self.0@.len() - i,
        {
            proof {
                assert(self.0@.take(i + 1).drop_last() =~= self.0@.take(i as int));
            }
            m = m | (1u32 << self.0[i].bit_index());
            i = i + 1;
        }
        proof {
            assert(self.0@.take(i as int) =~= self.0@);
        }
        m
    }
}

/// The proceed-on set of one outbound steering program, in the order given.
#[derive(Debug, Clone)]
pub struct TcProceedOn(pub Vec<TcProceedOnEntry>);

/// The set used where a request gives none: `ok`, `pipe` and `dispatcher_return`.
pub open spec fn tc_default_entries() -> Seq<TcProceedOnEntry> {
    seq![TcProceedOnEntry::ActOk, TcProceedOnEntry::Pipe, TcProceedOnEntry::DispatcherReturn]
}

/// Whether every token names an entry.
pub open spec fn tc_tokens_valid(ts: Seq<String>) -> bool {
    forall|i: int| 0 <= i < ts.len() ==> (tc_entry_of_token(#[trigger] ts[i]@) is Some)
}

/// The mask a dispatcher slot holds for these entries: one bit for each.
pub open spec fn tc_mask_of(s: Seq<TcProceedOnEntry>) -> u32
    decreases s.len(),
{
    if s.len() == 0 {
        0
    } else {
        tc_mask_of(s.drop_last()) | (1u32 << s.last().bit())
    }
}

impl TcProceedOn {
    /// The default set.
    pub fn default_set() -> (r: TcProceedOn)
        ensures
            r.0@ == tc_default_entries(),
    {
        let mut v: Vec<TcProceedOnEntry> = Vec::new();
        v.push(TcProceedOnEntry::ActOk);
        v.push(TcProceedOnEntry::Pipe);
        v.push(TcProceedOnEntry::DispatcherReturn);
        proof {
            assert(v@ =~= tc_default_entries());
        }
        TcProceedOn(v)
    }

    /// Parses the tokens of a request. No tokens give the default set; the
    /// first unknown token is rejected by name.
    pub fn from_strings(ts: &Vec<String>) -> (r: Result<TcProceedOn, ParseError>)
        ensures
            ts@.len() == 0 ==> (r matches Ok(p) && p.0@ == tc_default_entries()),
            ts@.len() > 0 && tc_tokens_valid(ts@) ==> (r matches Ok(p) && p.0@.len() == ts@.len()
                && forall|i: int| 0 <= i < ts@.len() ==> Some(#[trigger] p.0@[i]) == tc_entry_of_token(ts@[i]@)),
            !tc_tokens_valid(ts@) ==> (r matches Err(ParseError::InvalidProceedOn { proceedon })
                && exists|i: int| 0 <= i < ts@.len() && ts@[i]@ == proceedon@
                    && tc_entry_of_token(#[trigger] ts@[i]@) is None
                    && forall|j: int| 0 <= j < i ==> (tc_entry_of_token(#[trigger] ts@[j]@) is Some)),
    {
        if ts.len() == 0 {
            return Ok(TcProceedOn::default_set());
        }
        let mut out: Vec<TcProceedOnEntry> = Vec::new();
        let mut i: usize = 0;
        while i < ts.len()
            invariant
                i <= ts@.len(),
                out@.len() == i,
                forall|j: int| 0 <= j < i ==> Some(#[trigger] out@[j]) == tc_entry_of_token(ts@[j]@),
            decreases ts@.len() - i,
        {
            match TcProceedOnEntry::from_token(&ts[i]) {
                Ok(e) => out.push(e),
                Err(err) => {
                    proof {
                        assert forall|j: int| 0 <= j < i implies tc_entry_of_token(#[trigger] ts@[j]@) is Some by {
                            assert(Some(out@[j]) == tc_entry_of_token(ts@[j]@));
                        }
                    }
                    return Err(err);
                },
            }
            i = i + 1;
        }
        proof {
            assert forall|j: int| 0 <= j < ts@.len() implies tc_entry_of_token(#[trigger] ts@[j]@) is Some by {
                assert(Some(out@[j]) == tc_entry_of_token(ts@[j]@));
            }
        }
        Ok(TcProceedOn(out))
    }

    /// The dispatcher slot mask for this set.
    pub fn mask(&self) -> (r: u32)
        ensures
            r == tc_mask_of(self.0@),
    {
        let mut m: u32 = 0;
        let mut i: usize = 0;
        while i < self.0.len()
            invariant
                i <= self.0@.len(),
                m == tc_mask_of(self.0@.take(i as int)),
            decreases self.0@.len() - i,
        {
            proof {
                assert(self.0@.take(i + 1).drop_last() =~= self.0@.take(i as int));
            }
            m = m | (1u32 << self.0[i].bit_index());
            i = i + 1;
        }
        proof {
            assert(self.0@.take(i as int) =~= self.0@);
        }
        m
    }
}

} // verus!
