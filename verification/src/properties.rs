//! Characteristic properties: the fixed bit set a driver's flag strings are
//! translated into, and the translation back. Unrecognized flag strings are
//! ignored.

use vstd::prelude::*;

verus! {

#[derive(Clone, Copy, PartialEq, Eq, Structural, Debug)]
pub struct CharacteristicProperties {
    pub broadcast: bool,
    pub read: bool,
    pub write_without_response: bool,
    pub write: bool,
    pub notify: bool,
    pub indicate: bool,
    pub authenticated_signed_writes: bool,
    pub reliable_write: bool,
    pub writable_auxiliaries: bool,
}

pub open spec fn spec_no_properties() -> CharacteristicProperties {
    CharacteristicProperties {
        broadcast: false,
        read: false,
        write_without_response: false,
        write: false,
        notify: false,
        indicate: false,
        authenticated_signed_writes: false,
        reliable_write: false,
        writable_auxiliaries: false,
    }
}

/// One driver flag string applied to a property set: the matching flag is
/// turned on; an unrecognized string changes nothing.
pub open spec fn spec_apply_flag(
    p: CharacteristicProperties,
    u: Seq<char>,
) -> CharacteristicProperties {
    if u == "broadcast"@ {
        CharacteristicProperties { broadcast: true, ..p }
    } else if u == "read"@ {
        CharacteristicProperties { read: true, ..p }
    } else if u == "write_without_response"@ {
        CharacteristicProperties { write_without_response: true, ..p }
    } else if u == "write"@ {
        CharacteristicProperties { write: true, ..p }
    } else if u == "notify"@ {
        CharacteristicProperties { notify: true, ..p }
    } else if u == "indicate"@ {
        CharacteristicProperties { indicate: true, ..p }
    } else if u == "authenticated_signed_writes"@ {
        CharacteristicProperties { authenticated_signed_writes: true, ..p }
    } else if u == "reliable_write"@ {
        CharacteristicProperties { reliable_write: true, ..p }
    } else if u == "writable_auxiliaries"@ {
        CharacteristicProperties { writable_auxiliaries: true, ..p }
    } else {
        p
    }
}

/// The property set a sequence of driver flag strings denotes.
pub open spec fn spec_properties_of_flags(flags: Seq<Seq<char>>) -> CharacteristicProperties
    decreases flags.len(),
{
    if flags.len() == 0 {
        spec_no_properties()
    } else {
        spec_apply_flag(spec_properties_of_flags(flags.drop_last()), flags.last())
    }
}

/// The canonical flag strings of a property set, one per flag that is on, in
/// a fixed order.
pub open spec fn spec_flags_of_properties(p: CharacteristicProperties) -> Seq<Seq<char>> {
    let s0 = Seq::<Seq<char>>::empty();
    let s1 = if p.broadcast {
        s0.push("broadcast"@)
    } else {
        s0
    };
    let s2 = if p.read {
        s1.push("read"@)
    } else {
        s1
    };
    let s3 = if p.write_without_response {
        s2.push("write_without_response"@)
    } else {
        s2
    };
    let s4 = if p.write {
        s3.push("write"@)
    } else {
        s3
    };
    let s5 = if p.notify {
        s4.push("notify"@)
    } else {
        s4
    };
    let s6 = if p.indicate {
        s5.push("indicate"@)
    } else {
        s5
    };
    let s7 = if p.authenticated_signed_writes {
        s6.push("authenticated_signed_writes"@)
    } else {
        s6
    };
    let s8 = if p.reliable_write {
        s7.push("reliable_write"@)
    } else {
        s7
    };
    if p.writable_auxiliaries {
        s8.push("writable_auxiliaries"@)
    } else {
        s8
    }
}

proof fn lemma_properties_of_flags_push(s: Seq<Seq<char>>, u: Seq<char>)
    ensures
        spec_properties_of_flags(s.push(u)) == spec_apply_flag(spec_properties_of_flags(s), u),
{
    assert(s.push(u).drop_last() =~= s);
    assert(s.push(u).last() == u);
}

/// Translates driver flag strings into the property bit set, ignoring
/// unrecognized strings.
pub fn properties_from_flags(flags: &Vec<String>) -> (p: CharacteristicProperties)
    ensures
        p == spec_properties_of_flags(flags@.map_values(|s: String| s@)),
{
    let ghost g = flags@.map_values(|s: String| s@);
    let mut p = CharacteristicProperties {
        broadcast: false,
        read: false,
        write_without_response: false,
        write: false,
        notify: false,
        indicate: false,
        authenticated_signed_writes: false,
        reliable_write: false,
        writable_auxiliaries: false,
    };
    proof {
        assert(p == spec_properties_of_flags(g.subrange(0, 0)));
    }
    let n = flags.len();
    let mut i: usize = 0;
    while i < n
        invariant
            n == flags@.len(),
            g == flags@.map_values(|s: String| s@),
            g.len() == n,
            0 <= i <= n,
            p == spec_properties_of_flags(g.subrange(0, i as int)),
        decreases n - i,
    {
        let f = &flags[i];
        proof {
            assert(g[i as int] == f@);
        }
        if *f == "broadcast".to_owned() {
            p.broadcast = true;
        } else if *f == "read".to_owned() {
            p.read = true;
        } else if *f == "write_without_response".to_owned() {
            p.write_without_response = true;
        } else if *f == "write".to_owned() {
            p.write = true;
        } else if *f == "notify".to_owned() {
            p.notify = true;
        } else if *f == "indicate".to_owned() {
            p.indicate = true;
        } else if *f == "authenticated_signed_writes".to_owned() {
            p.authenticated_signed_writes = true;
        } else if *f == "reliable_write".to_owned() {
            p.reliable_write = true;
        } else if *f == "writable_auxiliaries".to_owned() {
            p.writable_auxiliaries = true;
        }
        proof {
            lemma_properties_of_flags_push(g.subrange(0, i as int), g[i as int]);
            assert(g.subrange(0, i as int + 1) =~= g.subrange(0, i as int).push(g[i as int]));
        }
        i = i + 1;
    }
    proof {
        assert(g.subrange(0, n as int) =~= g);
    }
    p
}

/// Translates a property bit set back into the canonical flag strings.
pub fn flags_from_properties(p: &CharacteristicProperties) -> (r: Vec<String>)
    ensures
        r@.map_values(|s: String| s@) == spec_flags_of_properties(*p),
{
    let ghost s0 = Seq::<Seq<char>>::empty();
    let ghost s1 = if p.broadcast { s0.push("broadcast"@) } else { s0 };
    let ghost s2 = if p.read { s1.push("read"@) } else { s1 };
    let ghost s3 = if p.write_without_response {
        s2.push("write_without_response"@)
    } else {
        s2
    };
    let ghost s4 = if p.write { s3.push("write"@) } else { s3 };
    let ghost s5 = if p.notify { s4.push("notify"@) } else { s4 };
    let ghost s6 = if p.indicate { s5.push("indicate"@) } else { s5 };
    let ghost s7 = if p.authenticated_signed_writes {
        s6.push("authenticated_signed_writes"@)
    } else {
        s6
    };
    let ghost s8 = if p.reliable_write { s7.push("reliable_write"@) } else { s7 };
    let ghost s9 = if p.writable_auxiliaries {
        s8.push("writable_auxiliaries"@)
    } else {
        s8
    };
    let mut r: Vec<String> = Vec::new();
    proof {
        assert(r@.map_values(|s: String| s@) =~= s0);
    }
    if p.broadcast {
        r.push("broadcast".to_owned());
    }
    proof {
        assert(r@.map_values(|s: String| s@) =~= s1);
    }
    if p.read {
        r.push("read".to_owned());
    }
    proof {
        assert(r@.map_values(|s: String| s@) =~= s2);
    }
    if p.write_without_response {
        r.push("write_without_response".to_owned());
    }
    proof {
        assert(r@.map_values(|s: String| s@) =~= s3);
    }
    if p.write {
        r.push("write".to_owned());
    }
    proof {
        assert(r@.map_values(|s: String| s@) =~= s4);
    }
    if p.notify {
        r.push("notify".to_owned());
    }
    proof {
        assert(r@.map_values(|s: String| s@) =~= s5);
    }
    if p.indicate {
        r.push("indicate".to_owned());
    }
    proof {
        assert(r@.map_values(|s: String| s@) =~= s6);
    }
    if p.authenticated_signed_writes {
        r.push("authenticated_signed_writes".to_owned());
    }
    proof {
        assert(r@.map_values(|s: String| s@) =~= s7);
    }
    if p.reliable_write {
        r.push("reliable_write".to_owned());
    }
    proof {
        assert(r@.map_values(|s: String| s@) =~= s8);
    }
    if p.writable_auxiliaries {
        r.push("writable_auxiliaries".to_owned());
    }
    proof {
        assert(r@.map_values(|s: String| s@) =~= s9);
        assert(s9 == spec_flags_of_properties(*p));
    }
    r
}

/// Law: translating a property set into its flag strings and those strings
/// back into a property set returns the set unchanged.
pub proof fn lemma_properties_round_trip(p: CharacteristicProperties)
    ensures
        spec_properties_of_flags(spec_flags_of_properties(p)) == p,
{
    reveal_strlit("broadcast");
    reveal_strlit("read");
    reveal_strlit("write_without_response");
    reveal_strlit("write");
    reveal_strlit("notify");
    reveal_strlit("indicate");
    reveal_strlit("authenticated_signed_writes");
    reveal_strlit("reliable_write");
    reveal_strlit("writable_auxiliaries");
    assert("broadcast"@.len() == 9);
    assert("read"@.len() == 4);
    assert("write_without_response"@.len() == 22);
    assert("write"@.len() == 5);
    assert("notify"@.len() == 6);
    assert("indicate"@.len() == 8);
    assert("authenticated_signed_writes"@.len() == 27);
    assert("reliable_write"@.len() == 14);
    assert("writable_auxiliaries"@.len() == 20);
    let s0 = Seq::<Seq<char>>::empty();
    let s1 = if p.broadcast {
        s0.push("broadcast"@)
    } else {
        s0
    };
    let s2 = if p.read {
        s1.push("read"@)
    } else {
        s1
    };
    let s3 = if p.write_without_response {
        s2.push("write_without_response"@)
    } else {
        s2
    };
    let s4 = if p.write {
        s3.push("write"@)
    } else {
        s3
    };
    let s5 = if p.notify {
        s4.push("notify"@)
    } else {
        s4
    };
    let s6 = if p.indicate {
        s5.push("indicate"@)
    } else {
        s5
    };
    let s7 = if p.authenticated_signed_writes {
        s6.push("authenticated_signed_writes"@)
    } else {
        s6
    };
    let s8 = if p.reliable_write {
        s7.push("reliable_write"@)
    } else {
        s7
    };
    let s9 = if p.writable_auxiliaries {
        s8.push("writable_auxiliaries"@)
    } else {
        s8
    };
    assert(spec_flags_of_properties(p) == s9);
    assert(spec_properties_of_flags(s0) == spec_no_properties());
    if p.broadcast {
        lemma_properties_of_flags_push(s0, "broadcast"@);
    }
    assert(spec_properties_of_flags(s1) == CharacteristicProperties {
        broadcast: p.broadcast,
        ..spec_no_properties()
    });
    if p.read {
        lemma_properties_of_flags_push(s1, "read"@);
    }
    assert(spec_properties_of_flags(s2) == CharacteristicProperties {
        read: p.read,
        ..spec_properties_of_flags(s1)
    });
    if p.write_without_response {
        lemma_properties_of_flags_push(s2, "write_without_response"@);
    }
    assert(spec_properties_of_flags(s3) == CharacteristicProperties {
        write_without_response: p.write_without_response,
        ..spec_properties_of_flags(s2)
    });
    if p.write {
        lemma_properties_of_flags_push(s3, "write"@);
    }
    assert(spec_properties_of_flags(s4) == CharacteristicProperties {
        write: p.write,
        ..spec_properties_of_flags(s3)
    });
    if p.notify {
        lemma_properties_of_flags_push(s4, "notify"@);
    }
    assert(spec_properties_of_flags(s5) == CharacteristicProperties {
        notify: p.notify,
        ..spec_properties_of_flags(s4)
    });
    if p.indicate {
        lemma_properties_of_flags_push(s5, "indicate"@);
    }
    assert(spec_properties_of_flags(s6) == CharacteristicProperties {
        indicate: p.indicate,
        ..spec_properties_of_flags(s5)
    });
    if p.authenticated_signed_writes {
        lemma_properties_of_flags_push(s6, "authenticated_signed_writes"@);
    }
    assert(spec_properties_of_flags(s7) == CharacteristicProperties {
        authenticated_signed_writes: p.authenticated_signed_writes,
        ..spec_properties_of_flags(s6)
    });
    if p.reliable_write {
        lemma_properties_of_flags_push(s7, "reliable_write"@);
    }
    assert(spec_properties_of_flags(s8) == CharacteristicProperties {
        reliable_write: p.reliable_write,
        ..spec_properties_of_flags(s7)
    });
    if p.writable_auxiliaries {
        lemma_properties_of_flags_push(s8, "writable_auxiliaries"@);
    }
    assert(spec_properties_of_flags(s9) == CharacteristicProperties {
        writable_auxiliaries: p.writable_auxiliaries,
        ..spec_properties_of_flags(s8)
    });
}

} // verus!
