//! The manifest codec.
//!
//! The annotation set of a build is persisted as one structured manifest
//! file. The format is a flat character stream: a string field is written
//! with `\` escaping the two special characters and is terminated by `|`; a
//! boolean is one of `0`/`1`; a list writes `+` before every element and is
//! terminated by `-`. The manifest is the world record, the base record, and
//! the four resource lists, in that fixed order.
//!
//! Encoding and decoding are exact inverses: decoding an encoded manifest
//! yields the original annotation set, which is what makes the registry
//! survive the write/read round trip between compiler invocations.

use vstd::prelude::*;

use crate::annotation::{
    ContractAnnotation, ContractAnnotationView, DojoAnnotation, DojoAnnotationView,
    EventAnnotation, EventAnnotationView, Member, MemberView, ModelAnnotation,
    ModelAnnotationView, StarknetContractAnnotation, StarknetContractAnnotationView,
    WorldAnnotation, WorldAnnotationView,
};

verus! {

/// Encoding of one character inside a field: the field terminator and the
/// escape character are escaped.
pub open spec fn esc_char(c: char) -> Seq<char> {
    if c == '\\' || c == '|' {
        seq!['\\', c]
    } else {
        seq![c]
    }
}

/// Encoding of a string field, including its `|` terminator.
pub open spec fn enc_field(s: Seq<char>) -> Seq<char>
    decreases s.len(),
{
    if s.len() == 0 {
        seq!['|']
    } else {
        esc_char(s[0]) + enc_field(s.skip(1))
    }
}

/// Encoding of a boolean.
pub open spec fn enc_bool(b: bool) -> Seq<char> {
    if b {
        seq!['1']
    } else {
        seq!['0']
    }
}

/// Parses one string field. Returns the field value and the number of
/// characters consumed.
pub open spec fn parse_field(s: Seq<char>) -> Option<(Seq<char>, int)>
    decreases s.len(),
{
    if s.len() == 0 {
        None
    } else if s[0] == '|' {
        Some((Seq::empty(), 1))
    } else if s[0] == '\\' {
        if s.len() >= 2 {
            match parse_field(s.skip(2)) {
                Some((v, n)) => Some((seq![s[1]] + v, n + 2)),
                None => None,
            }
        } else {
            None
        }
    } else {
        match parse_field(s.skip(1)) {
            Some((v, n)) => Some((seq![s[0]] + v, n + 1)),
            None => None,
        }
    }
}

/// Parses one boolean.
pub open spec fn parse_bool(s: Seq<char>) -> Option<(bool, int)> {
    if s.len() > 0 && (s[0] == '0' || s[0] == '1') {
        Some((s[0] == '1', 1))
    } else {
        None
    }
}

/// A parsed field lies within the input and consumes at least the
/// terminator.
pub proof fn lemma_parse_field_bounds(s: Seq<char>)
    ensures
        match parse_field(s) {
            Some((v, n)) => 1 <= n <= s.len(),
            None => true,
        },
    decreases s.len(),
{
    if s.len() > 0 && s[0] != '|' {
        if s[0] == '\\' {
            if s.len() >= 2 {
                lemma_parse_field_bounds(s.skip(2));
            }
        } else {
            lemma_parse_field_bounds(s.skip(1));
        }
    }
}

/// Round trip of a field: parsing an encoded field followed by anything
/// yields the field back and consumes exactly the encoding.
pub proof fn lemma_parse_enc_field(v: Seq<char>, rest: Seq<char>)
    ensures
        parse_field(enc_field(v) + rest) == Some((v, enc_field(v).len() as int)),
    decreases v.len(),
{
    let s = enc_field(v) + rest;
    if v.len() == 0 {
        assert(s[0] == '|');
        assert(v =~= Seq::<char>::empty());
    } else {
        let c = v[0];
        lemma_parse_enc_field(v.skip(1), rest);
        if c == '\\' || c == '|' {
            assert(s[0] == '\\');
            assert(s[1] == c);
            assert(s.len() >= 2);
            assert(s.skip(2) =~= enc_field(v.skip(1)) + rest);
            assert(seq![c] + v.skip(1) =~= v);
        } else {
            assert(s[0] == c);
            assert(c != '|' && c != '\\');
            assert(s.skip(1) =~= enc_field(v.skip(1)) + rest);
            assert(seq![c] + v.skip(1) =~= v);
        }
    }
}

/// Round trip of a boolean.
pub proof fn lemma_parse_enc_bool(b: bool, rest: Seq<char>)
    ensures
        parse_bool(enc_bool(b) + rest) == Some((b, 1int)),
{
    assert((enc_bool(b) + rest)[0] == if b {
        '1'
    } else {
        '0'
    });
}

/// Encoding of one member: name, type, key flag.
pub open spec fn enc_member(m: MemberView) -> Seq<char> {
    enc_field(m.name) + enc_field(m.ty) + enc_bool(m.key)
}

/// Parses one member.
pub open spec fn parse_member(s: Seq<char>) -> Option<(MemberView, int)> {
    match parse_field(s) {
        None => None,
        Some((name, n1)) => match parse_field(s.skip(n1)) {
            None => None,
            Some((ty, n2)) => match parse_bool(s.skip(n1 + n2)) {
                None => None,
                Some((key, n3)) => Some((MemberView { name, ty, key }, n1 + n2 + n3)),
            },
        },
    }
}

/// A parsed member lies within the input.
pub proof fn lemma_parse_member_bounds(s: Seq<char>)
    ensures
        match parse_member(s) {
            Some((m, n)) => 1 <= n <= s.len(),
            None => true,
        },
{
    lemma_parse_field_bounds(s);
    match parse_field(s) {
        None => {},
        Some((name, n1)) => {
            lemma_parse_field_bounds(s.skip(n1));
            match parse_field(s.skip(n1)) {
                None => {},
                Some((ty, n2)) => {
                    assert(s.skip(n1 + n2).len() == s.len() - n1 - n2);
                },
            }
        },
    }
}

/// Round trip of a member.
pub proof fn lemma_parse_enc_member(m: MemberView, rest: Seq<char>)
    ensures
        parse_member(enc_member(m) + rest) == Some((m, enc_member(m).len() as int)),
{
    let s = enc_member(m) + rest;
    let e1 = enc_field(m.name);
    let e2 = enc_field(m.ty);
    let e3 = enc_bool(m.key);
    assert(s =~= e1 + (e2 + (e3 + rest)));
    lemma_parse_enc_field(m.name, e2 + (e3 + rest));
    assert(s.skip(e1.len() as int) =~= e2 + (e3 + rest));
    lemma_parse_enc_field(m.ty, e3 + rest);
    assert(s.skip(e1.len() + e2.len() as int) =~= e3 + rest);
    lemma_parse_enc_bool(m.key, rest);
    assert(parse_member(s) == Some(
        (MemberView { name: m.name, ty: m.ty, key: m.key }, e1.len() + e2.len() + 1int),
    ));
    assert((MemberView { name: m.name, ty: m.ty, key: m.key }) == m);
}

/// Encoding of a member list.
pub open spec fn enc_members(ms: Seq<MemberView>) -> Seq<char>
    decreases ms.len(),
{
    if ms.len() == 0 {
        seq!['-']
    } else {
        seq!['+'] + enc_member(ms[0]) + enc_members(ms.skip(1))
    }
}

/// Parses a member list.
pub open spec fn parse_members(s: Seq<char>) -> Option<(Seq<MemberView>, int)>
    decreases s.len(),
    via parse_members_dec
{
    if s.len() == 0 {
        None
    } else if s[0] == '-' {
        Some((Seq::empty(), 1))
    } else if s[0] == '+' {
        match parse_member(s.skip(1)) {
            None => None,
            Some((m, n)) => match parse_members(s.skip(1 + n)) {
                None => None,
                Some((ms, n2)) => Some((seq![m] + ms, 1 + n + n2)),
            },
        }
    } else {
        None
    }
}

#[via_fn]
proof fn parse_members_dec(s: Seq<char>) {
    if s.len() > 0 && s[0] == '+' {
        lemma_parse_member_bounds(s.skip(1));
    }
}

/// A parsed member list lies within the input.
pub proof fn lemma_parse_members_bounds(s: Seq<char>)
    ensures
        match parse_members(s) {
            Some((ms, n)) => 1 <= n <= s.len(),
            None => true,
        },
    decreases s.len(),
{
    if s.len() > 0 && s[0] == '+' {
        lemma_parse_member_bounds(s.skip(1));
        match parse_member(s.skip(1)) {
            None => {},
            Some((m, n)) => {
                lemma_parse_members_bounds(s.skip(1 + n));
            },
        }
    }
}

/// Round trip of a member list.
pub proof fn lemma_parse_enc_members(ms: Seq<MemberView>, rest: Seq<char>)
    ensures
        parse_members(enc_members(ms) + rest) == Some((ms, enc_members(ms).len() as int)),
    decreases ms.len(),
{
    let s = enc_members(ms) + rest;
    if ms.len() == 0 {
        assert(s[0] == '-');
        assert(ms =~= Seq::<MemberView>::empty());
    } else {
        let em = enc_member(ms[0]);
        let etail = enc_members(ms.skip(1));
        assert(s[0] == '+');
        assert(s.skip(1) =~= em + (etail + rest));
        lemma_parse_enc_member(ms[0], etail + rest);
        assert(s.skip(1 + em.len() as int) =~= etail + rest);
        lemma_parse_enc_members(ms.skip(1), rest);
        assert(seq![ms[0]] + ms.skip(1) =~= ms);
    }
}

/// Encoding of a string list.
pub open spec fn enc_strings(ss: Seq<Seq<char>>) -> Seq<char>
    decreases ss.len(),
{
    if ss.len() == 0 {
        seq!['-']
    } else {
        seq!['+'] + enc_field(ss[0]) + enc_strings(ss.skip(1))
    }
}

/// Parses a string list.
pub open spec fn parse_strings(s: Seq<char>) -> Option<(Seq<Seq<char>>, int)>
    decreases s.len(),
    via parse_strings_dec
{
    if s.len() == 0 {
        None
    } else if s[0] == '-' {
        Some((Seq::empty(), 1))
    } else if s[0] == '+' {
        match parse_field(s.skip(1)) {
            None => None,
            Some((v, n)) => match parse_strings(s.skip(1 + n)) {
                None => None,
                Some((ss, n2)) => Some((seq![v] + ss, 1 + n + n2)),
            },
        }
    } else {
        None
    }
}

#[via_fn]
proof fn parse_strings_dec(s: Seq<char>) {
    if s.len() > 0 && s[0] == '+' {
        lemma_parse_field_bounds(s.skip(1));
    }
}

/// A parsed string list lies within the input.
pub proof fn lemma_parse_strings_bounds(s: Seq<char>)
    ensures
        match parse_strings(s) {
            Some((ss, n)) => 1 <= n <= s.len(),
            None => true,
        },
    decreases s.len(),
{
    if s.len() > 0 && s[0] == '+' {
        lemma_parse_field_bounds(s.skip(1));
        match parse_field(s.skip(1)) {
            None => {},
            Some((v, n)) => {
                lemma_parse_strings_bounds(s.skip(1 + n));
            },
        }
    }
}

/// Round trip of a string list.
pub proof fn lemma_parse_enc_strings(ss: Seq<Seq<char>>, rest: Seq<char>)
    ensures
        parse_strings(enc_strings(ss) + rest) == Some((ss, enc_strings(ss).len() as int)),
    decreases ss.len(),
{
    let s = enc_strings(ss) + rest;
    if ss.len() == 0 {
        assert(s[0] == '-');
        assert(ss =~= Seq::<Seq<char>>::empty());
    } else {
        let ef = enc_field(ss[0]);
        let etail = enc_strings(ss.skip(1));
        assert(s[0] == '+');
        assert(s.skip(1) =~= ef + (etail + rest));
        lemma_parse_enc_field(ss[0], etail + rest);
        assert(s.skip(1 + ef.len() as int) =~= etail + rest);
        lemma_parse_enc_strings(ss.skip(1), rest);
        assert(seq![ss[0]] + ss.skip(1) =~= ss);
    }
}

/// Encoding of three consecutive string fields.
pub open spec fn enc_triple(a: Seq<char>, b: Seq<char>, c: Seq<char>) -> Seq<char> {
    enc_field(a) + enc_field(b) + enc_field(c)
}

/// Parses three consecutive string fields.
pub open spec fn parse_triple(s: Seq<char>) -> Option<((Seq<char>, Seq<char>, Seq<char>), int)> {
    match parse_field(s) {
        None => None,
        Some((a, n1)) => match parse_field(s.skip(n1)) {
            None => None,
            Some((b, n2)) => match parse_field(s.skip(n1 + n2)) {
                None => None,
                Some((c, n3)) => Some(((a, b, c), n1 + n2 + n3)),
            },
        },
    }
}

/// A parsed triple lies within the input.
pub proof fn lemma_parse_triple_bounds(s: Seq<char>)
    ensures
        match parse_triple(s) {
            Some((t, n)) => 1 <= n <= s.len(),
            None => true,
        },
{
    lemma_parse_field_bounds(s);
    match parse_field(s) {
        None => {},
        Some((a, n1)) => {
            lemma_parse_field_bounds(s.skip(n1));
            match parse_field(s.skip(n1)) {
                None => {},
                Some((b, n2)) => {
                    lemma_parse_field_bounds(s.skip(n1 + n2));
                },
            }
        },
    }
}

/// Round trip of a triple.
pub proof fn lemma_parse_enc_triple(a: Seq<char>, b: Seq<char>, c: Seq<char>, rest: Seq<char>)
    ensures
        parse_triple(enc_triple(a, b, c) + rest) == Some(
            ((a, b, c), enc_triple(a, b, c).len() as int),
        ),
{
    let s = enc_triple(a, b, c) + rest;
    let e1 = enc_field(a);
    let e2 = enc_field(b);
    let e3 = enc_field(c);
    assert(s =~= e1 + (e2 + (e3 + rest)));
    lemma_parse_enc_field(a, e2 + (e3 + rest));
    assert(s.skip(e1.len() as int) =~= e2 + (e3 + rest));
    lemma_parse_enc_field(b, e3 + rest);
    assert(s.skip(e1.len() + e2.len() as int) =~= e3 + rest);
    lemma_parse_enc_field(c, rest);
    assert(s.skip(e1.len() + e2.len() + e3.len() as int) =~= rest);
}

/// Encoding of a contract annotation.
pub open spec fn enc_contract(c: ContractAnnotationView) -> Seq<char> {
    enc_triple(c.qualified_path, c.tag, c.class_hash) + enc_strings(c.systems)
}

/// Parses a contract annotation.
pub open spec fn parse_contract(s: Seq<char>) -> Option<(ContractAnnotationView, int)> {
    match parse_triple(s) {
        None => None,
        Some((t, n1)) => match parse_strings(s.skip(n1)) {
            None => None,
            Some((systems, n2)) => Some(
                (
                    ContractAnnotationView {
                        qualified_path: t.0,
                        tag: t.1,
                        class_hash: t.2,
                        systems,
                    },
                    n1 + n2,
                ),
            ),
        },
    }
}

/// A parsed contract annotation lies within the input.
pub proof fn lemma_parse_contract_bounds(s: Seq<char>)
    ensures
        match parse_contract(s) {
            Some((c, n)) => 1 <= n <= s.len(),
            None => true,
        },
{
    lemma_parse_triple_bounds(s);
    match parse_triple(s) {
        None => {},
        Some((t, n1)) => {
            lemma_parse_strings_bounds(s.skip(n1));
        },
    }
}

/// Round trip of a contract annotation.
pub proof fn lemma_parse_enc_contract(c: ContractAnnotationView, rest: Seq<char>)
    ensures
        parse_contract(enc_contract(c) + rest) == Some((c, enc_contract(c).len() as int)),
{
    let s = enc_contract(c) + rest;
    let e1 = enc_triple(c.qualified_path, c.tag, c.class_hash);
    let e2 = enc_strings(c.systems);
    assert(s =~= e1 + (e2 + rest));
    lemma_parse_enc_triple(c.qualified_path, c.tag, c.class_hash, e2 + rest);
    assert(s.skip(e1.len() as int) =~= e2 + rest);
    lemma_parse_enc_strings(c.systems, rest);
    assert((ContractAnnotationView {
        qualified_path: c.qualified_path,
        tag: c.tag,
        class_hash: c.class_hash,
        systems: c.systems,
    }) == c);
}

/// Encoding of a model annotation.
pub open spec fn enc_model(m: ModelAnnotationView) -> Seq<char> {
    enc_triple(m.qualified_path, m.tag, m.class_hash) + enc_members(m.members)
}

/// Parses a model annotation.
pub open spec fn parse_model(s: Seq<char>) -> Option<(ModelAnnotationView, int)> {
    match parse_triple(s) {
        None => None,
        Some((t, n1)) => match parse_members(s.skip(n1)) {
            None => None,
            Some((members, n2)) => Some(
                (
                    ModelAnnotationView { qualified_path: t.0, tag: t.1, class_hash: t.2, members },
                    n1 + n2,
                ),
            ),
        },
    }
}

/// A parsed model annotation lies within the input.
pub proof fn lemma_parse_model_bounds(s: Seq<char>)
    ensures
        match parse_model(s) {
            Some((m, n)) => 1 <= n <= s.len(),
            None => true,
        },
{
    lemma_parse_triple_bounds(s);
    match parse_triple(s) {
        None => {},
        Some((t, n1)) => {
            lemma_parse_members_bounds(s.skip(n1));
        },
    }
}

/// Round trip of a model annotation.
pub proof fn lemma_parse_enc_model(m: ModelAnnotationView, rest: Seq<char>)
    ensures
        parse_model(enc_model(m) + rest) == Some((m, enc_model(m).len() as int)),
{
    let s = enc_model(m) + rest;
    let e1 = enc_triple(m.qualified_path, m.tag, m.class_hash);
    let e2 = enc_members(m.members);
    assert(s =~= e1 + (e2 + rest));
    lemma_parse_enc_triple(m.qualified_path, m.tag, m.class_hash, e2 + rest);
    assert(s.skip(e1.len() as int) =~= e2 + rest);
    lemma_parse_enc_members(m.members, rest);
    assert((ModelAnnotationView {
        qualified_path: m.qualified_path,
        tag: m.tag,
        class_hash: m.class_hash,
        members: m.members,
    }) == m);
}

/// Encoding of an event annotation.
pub open spec fn enc_event(e: EventAnnotationView) -> Seq<char> {
    enc_triple(e.qualified_path, e.tag, e.class_hash) + enc_members(e.members)
}

/// Parses an event annotation.
pub open spec fn parse_event(s: Seq<char>) -> Option<(EventAnnotationView, int)> {
    match parse_triple(s) {
        None => None,
        Some((t, n1)) => match parse_members(s.skip(n1)) {
            None => None,
            Some((members, n2)) => Some(
                (
                    EventAnnotationView { qualified_path: t.0, tag: t.1, class_hash: t.2, members },
                    n1 + n2,
                ),
            ),
        },
    }
}

/// A parsed event annotation lies within the input.
pub proof fn lemma_parse_event_bounds(s: Seq<char>)
    ensures
        match parse_event(s) {
            Some((e, n)) => 1 <= n <= s.len(),
            None => true,
        },
{
    lemma_parse_triple_bounds(s);
    match parse_triple(s) {
        None => {},
        Some((t, n1)) => {
            lemma_parse_members_bounds(s.skip(n1));
        },
    }
}

/// Round trip of an event annotation.
pub proof fn lemma_parse_enc_event(e: EventAnnotationView, rest: Seq<char>)
    ensures
        parse_event(enc_event(e) + rest) == Some((e, enc_event(e).len() as int)),
{
    let s = enc_event(e) + rest;
    let e1 = enc_triple(e.qualified_path, e.tag, e.class_hash);
    let e2 = enc_members(e.members);
    assert(s =~= e1 + (e2 + rest));
    lemma_parse_enc_triple(e.qualified_path, e.tag, e.class_hash, e2 + rest);
    assert(s.skip(e1.len() as int) =~= e2 + rest);
    lemma_parse_enc_members(e.members, rest);
    assert((EventAnnotationView {
        qualified_path: e.qualified_path,
        tag: e.tag,
        class_hash: e.class_hash,
        members: e.members,
    }) == e);
}

/// Encoding of a world annotation.
pub open spec fn enc_world(w: WorldAnnotationView) -> Seq<char> {
    enc_triple(w.qualified_path, w.tag, w.class_hash)
}

/// Parses a world annotation.
pub open spec fn parse_world(s: Seq<char>) -> Option<(WorldAnnotationView, int)> {
    match parse_triple(s) {
        None => None,
        Some((t, n)) => Some(
            (WorldAnnotationView { qualified_path: t.0, tag: t.1, class_hash: t.2 }, n),
        ),
    }
}

/// Round trip of a world annotation.
pub proof fn lemma_parse_enc_world(w: WorldAnnotationView, rest: Seq<char>)
    ensures
        parse_world(enc_world(w) + rest) == Some((w, enc_world(w).len() as int)),
{
    lemma_parse_enc_triple(w.qualified_path, w.tag, w.class_hash, rest);
    assert((WorldAnnotationView {
        qualified_path: w.qualified_path,
        tag: w.tag,
        class_hash: w.class_hash,
    }) == w);
}

/// Encoding of a generic Starknet contract annotation.
pub open spec fn enc_sn(x: StarknetContractAnnotationView) -> Seq<char> {
    enc_triple(x.qualified_path, x.name, x.class_hash)
}

/// Parses a generic Starknet contract annotation.
pub open spec fn parse_sn(s: Seq<char>) -> Option<(StarknetContractAnnotationView, int)> {
    match parse_triple(s) {
        None => None,
        Some((t, n)) => Some(
            (StarknetContractAnnotationView { qualified_path: t.0, name: t.1, class_hash: t.2 }, n),
        ),
    }
}

/// A parsed generic contract annotation lies within the input.
pub proof fn lemma_parse_sn_bounds(s: Seq<char>)
    ensures
        match parse_sn(s) {
            Some((x, n)) => 1 <= n <= s.len(),
            None => true,
        },
{
    lemma_parse_triple_bounds(s);
}

/// Round trip of a generic Starknet contract annotation.
pub proof fn lemma_parse_enc_sn(x: StarknetContractAnnotationView, rest: Seq<char>)
    ensures
        parse_sn(enc_sn(x) + rest) == Some((x, enc_sn(x).len() as int)),
{
    lemma_parse_enc_triple(x.qualified_path, x.name, x.class_hash, rest);
    assert((StarknetContractAnnotationView {
        qualified_path: x.qualified_path,
        name: x.name,
        class_hash: x.class_hash,
    }) == x);
}

/// Encoding of the contract list.
pub open spec fn enc_contracts(cs: Seq<ContractAnnotationView>) -> Seq<char>
    decreases cs.len(),
{
    if cs.len() == 0 {
        seq!['-']
    } else {
        seq!['+'] + enc_contract(cs[0]) + enc_contracts(cs.skip(1))
    }
}

/// Parses the contract list.
pub open spec fn parse_contracts(s: Seq<char>) -> Option<(Seq<ContractAnnotationView>, int)>
    decreases s.len(),
    via parse_contracts_dec
{
    if s.len() == 0 {
        None
    } else if s[0] == '-' {
        Some((Seq::empty(), 1))
    } else if s[0] == '+' {
        match parse_contract(s.skip(1)) {
            None => None,
            Some((c, n)) => match parse_contracts(s.skip(1 + n)) {
                None => None,
                Some((cs, n2)) => Some((seq![c] + cs, 1 + n + n2)),
            },
        }
    } else {
        None
    }
}

#[via_fn]
proof fn parse_contracts_dec(s: Seq<char>) {
    if s.len() > 0 && s[0] == '+' {
        lemma_parse_contract_bounds(s.skip(1));
    }
}

/// A parsed contract list lies within the input.
pub proof fn lemma_parse_contracts_bounds(s: Seq<char>)
    ensures
        match parse_contracts(s) {
            Some((cs, n)) => 1 <= n <= s.len(),
            None => true,
        },
    decreases s.len(),
{
    if s.len() > 0 && s[0] == '+' {
        lemma_parse_contract_bounds(s.skip(1));
        match parse_contract(s.skip(1)) {
            None => {},
            Some((c, n)) => {
                lemma_parse_contracts_bounds(s.skip(1 + n));
            },
        }
    }
}

/// Round trip of the contract list.
pub proof fn lemma_parse_enc_contracts(cs: Seq<ContractAnnotationView>, rest: Seq<char>)
    ensures
        parse_contracts(enc_contracts(cs) + rest) == Some((cs, enc_contracts(cs).len() as int)),
    decreases cs.len(),
{
    let s = enc_contracts(cs) + rest;
    if cs.len() == 0 {
        assert(s[0] == '-');
        assert(cs =~= Seq::<ContractAnnotationView>::empty());
    } else {
        let e0 = enc_contract(cs[0]);
        let etail = enc_contracts(cs.skip(1));
        assert(s[0] == '+');
        assert(s.skip(1) =~= e0 + (etail + rest));
        lemma_parse_enc_contract(cs[0], etail + rest);
        assert(s.skip(1 + e0.len() as int) =~= etail + rest);
        lemma_parse_enc_contracts(cs.skip(1), rest);
        assert(seq![cs[0]] + cs.skip(1) =~= cs);
    }
}

/// Encoding of the model list.
pub open spec fn enc_models(ms: Seq<ModelAnnotationView>) -> Seq<char>
    decreases ms.len(),
{
    if ms.len() == 0 {
        seq!['-']
    } else {
        seq!['+'] + enc_model(ms[0]) + enc_models(ms.skip(1))
    }
}

/// Parses the model list.
pub open spec fn parse_models(s: Seq<char>) -> Option<(Seq<ModelAnnotationView>, int)>
    decreases s.len(),
    via parse_models_dec
{
    if s.len() == 0 {
        None
    } else if s[0] == '-' {
        Some((Seq::empty(), 1))
    } else if s[0] == '+' {
        match parse_model(s.skip(1)) {
            None => None,
            Some((m, n)) => match parse_models(s.skip(1 + n)) {
                None => None,
                Some((ms, n2)) => Some((seq![m] + ms, 1 + n + n2)),
            },
        }
    } else {
        None
    }
}

#[via_fn]
proof fn parse_models_dec(s: Seq<char>) {
    if s.len() > 0 && s[0] == '+' {
        lemma_parse_model_bounds(s.skip(1));
    }
}

/// A parsed model list lies within the input.
pub proof fn lemma_parse_models_bounds(s: Seq<char>)
    ensures
        match parse_models(s) {
            Some((ms, n)) => 1 <= n <= s.len(),
            None => true,
        },
    decreases s.len(),
{
    if s.len() > 0 && s[0] == '+' {
        lemma_parse_model_bounds(s.skip(1));
        match parse_model(s.skip(1)) {
            None => {},
            Some((m, n)) => {
                lemma_parse_models_bounds(s.skip(1 + n));
            },
        }
    }
}

/// Round trip of the model list.
pub proof fn lemma_parse_enc_models(ms: Seq<ModelAnnotationView>, rest: Seq<char>)
    ensures
        parse_models(enc_models(ms) + rest) == Some((ms, enc_models(ms).len() as int)),
    decreases ms.len(),
{
    let s = enc_models(ms) + rest;
    if ms.len() == 0 {
        assert(s[0] == '-');
        assert(ms =~= Seq::<ModelAnnotationView>::empty());
    } else {
        let e0 = enc_model(ms[0]);
        let etail = enc_models(ms.skip(1));
        assert(s[0] == '+');
        assert(s.skip(1) =~= e0 + (etail + rest));
        lemma_parse_enc_model(ms[0], etail + rest);
        assert(s.skip(1 + e0.len() as int) =~= etail + rest);
        lemma_parse_enc_models(ms.skip(1), rest);
        assert(seq![ms[0]] + ms.skip(1) =~= ms);
    }
}

/// Encoding of the event list.
pub open spec fn enc_events(es: Seq<EventAnnotationView>) -> Seq<char>
    decreases es.len(),
{
    if es.len() == 0 {
        seq!['-']
    } else {
        seq!['+'] + enc_event(es[0]) + enc_events(es.skip(1))
    }
}

/// Parses the event list.
pub open spec fn parse_events(s: Seq<char>) -> Option<(Seq<EventAnnotationView>, int)>
    decreases s.len(),
    via parse_events_dec
{
    if s.len() == 0 {
        None
    } else if s[0] == '-' {
        Some((Seq::empty(), 1))
    } else if s[0] == '+' {
        match parse_event(s.skip(1)) {
            None => None,
            Some((e, n)) => match parse_events(s.skip(1 + n)) {
                None => None,
                Some((es, n2)) => Some((seq![e] + es, 1 + n + n2)),
            },
        }
    } else {
        None
    }
}

#[via_fn]
proof fn parse_events_dec(s: Seq<char>) {
    if s.len() > 0 && s[0] == '+' {
        lemma_parse_event_bounds(s.skip(1));
    }
}

/// A parsed event list lies within the input.
pub proof fn lemma_parse_events_bounds(s: Seq<char>)
    ensures
        match parse_events(s) {
            Some((es, n)) => 1 <= n <= s.len(),
            None => true,
        },
    decreases s.len(),
{
    if s.len() > 0 && s[0] == '+' {
        lemma_parse_event_bounds(s.skip(1));
        match parse_event(s.skip(1)) {
            None => {},
            Some((e, n)) => {
                lemma_parse_events_bounds(s.skip(1 + n));
            },
        }
    }
}

/// Round trip of the event list.
pub proof fn lemma_parse_enc_events(es: Seq<EventAnnotationView>, rest: Seq<char>)
    ensures
        parse_events(enc_events(es) + rest) == Some((es, enc_events(es).len() as int)),
    decreases es.len(),
{
    let s = enc_events(es) + rest;
    if es.len() == 0 {
        assert(s[0] == '-');
        assert(es =~= Seq::<EventAnnotationView>::empty());
    } else {
        let e0 = enc_event(es[0]);
        let etail = enc_events(es.skip(1));
        assert(s[0] == '+');
        assert(s.skip(1) =~= e0 + (etail + rest));
        lemma_parse_enc_event(es[0], etail + rest);
        assert(s.skip(1 + e0.len() as int) =~= etail + rest);
        lemma_parse_enc_events(es.skip(1), rest);
        assert(seq![es[0]] + es.skip(1) =~= es);
    }
}

/// Encoding of the generic contract list.
pub open spec fn enc_sns(xs: Seq<StarknetContractAnnotationView>) -> Seq<char>
    decreases xs.len(),
{
    if xs.len() == 0 {
        seq!['-']
    } else {
        seq!['+'] + enc_sn(xs[0]) + enc_sns(xs.skip(1))
    }
}

/// Parses the generic contract list.
pub open spec fn parse_sns(s: Seq<char>) -> Option<(Seq<StarknetContractAnnotationView>, int)>
    decreases s.len(),
    via parse_sns_dec
{
    if s.len() == 0 {
        None
    } else if s[0] == '-' {
        Some((Seq::empty(), 1))
    } else if s[0] == '+' {
        match parse_sn(s.skip(1)) {
            None => None,
            Some((x, n)) => match parse_sns(s.skip(1 + n)) {
                None => None,
                Some((xs, n2)) => Some((seq![x] + xs, 1 + n + n2)),
            },
        }
    } else {
        None
    }
}

#[via_fn]
proof fn parse_sns_dec(s: Seq<char>) {
    if s.len() > 0 && s[0] == '+' {
        lemma_parse_sn_bounds(s.skip(1));
    }
}

/// A parsed generic contract list lies within the input.
pub proof fn lemma_parse_sns_bounds(s: Seq<char>)
    ensures
        match parse_sns(s) {
            Some((xs, n)) => 1 <= n <= s.len(),
            None => true,
        },
    decreases s.len(),
{
    if s.len() > 0 && s[0] == '+' {
        lemma_parse_sn_bounds(s.skip(1));
        match parse_sn(s.skip(1)) {
            None => {},
            Some((x, n)) => {
                lemma_parse_sns_bounds(s.skip(1 + n));
            },
        }
    }
}

/// Round trip of the generic contract list.
pub proof fn lemma_parse_enc_sns(xs: Seq<StarknetContractAnnotationView>, rest: Seq<char>)
    ensures
        parse_sns(enc_sns(xs) + rest) == Some((xs, enc_sns(xs).len() as int)),
    decreases xs.len(),
{
    let s = enc_sns(xs) + rest;
    if xs.len() == 0 {
        assert(s[0] == '-');
        assert(xs =~= Seq::<StarknetContractAnnotationView>::empty());
    } else {
        let e0 = enc_sn(xs[0]);
        let etail = enc_sns(xs.skip(1));
        assert(s[0] == '+');
        assert(s.skip(1) =~= e0 + (etail + rest));
        lemma_parse_enc_sn(xs[0], etail + rest);
        assert(s.skip(1 + e0.len() as int) =~= etail + rest);
        lemma_parse_enc_sns(xs.skip(1), rest);
        assert(seq![xs[0]] + xs.skip(1) =~= xs);
    }
}

/// Encoding of a whole annotation set: world, base, then the four lists.
pub open spec fn enc_manifest(v: DojoAnnotationView) -> Seq<char> {
    enc_world(v.world) + enc_sn(v.base) + enc_contracts(v.contracts) + enc_models(v.models)
        + enc_events(v.events) + enc_sns(v.sn_contracts)
}

/// Parses a whole annotation set.
pub open spec fn parse_manifest(s: Seq<char>) -> Option<(DojoAnnotationView, int)> {
    match parse_world(s) {
        None => None,
        Some((world, n1)) => match parse_sn(s.skip(n1)) {
            None => None,
            Some((base, n2)) => match parse_contracts(s.skip(n1 + n2)) {
                None => None,
                Some((contracts, n3)) => match parse_models(s.skip(n1 + n2 + n3)) {
                    None => None,
                    Some((models, n4)) => match parse_events(s.skip(n1 + n2 + n3 + n4)) {
                        None => None,
                        Some((events, n5)) => match parse_sns(s.skip(n1 + n2 + n3 + n4 + n5)) {
                            None => None,
                            Some((sn_contracts, n6)) => Some(
                                (
                                    DojoAnnotationView {
                                        world,
                                        base,
                                        contracts,
                                        models,
                                        events,
                                        sn_contracts,
                                    },
                                    n1 + n2 + n3 + n4 + n5 + n6,
                                ),
                            ),
                        },
                    },
                },
            },
        },
    }
}

/// Round trip of a whole annotation set: decoding an encoded manifest yields
/// the annotation set back and consumes the whole encoding.
#[verifier::rlimit(60)]
pub proof fn lemma_parse_enc_manifest(v: DojoAnnotationView)
    ensures
        parse_manifest(enc_manifest(v)) == Some((v, enc_manifest(v).len() as int)),
{
    let e1 = enc_world(v.world);
    let e2 = enc_sn(v.base);
    let e3 = enc_contracts(v.contracts);
    let e4 = enc_models(v.models);
    let e5 = enc_events(v.events);
    let e6 = enc_sns(v.sn_contracts);
    let s = enc_manifest(v);
    assert(s =~= e1 + (e2 + (e3 + (e4 + (e5 + (e6 + Seq::<char>::empty()))))));
    lemma_parse_enc_world(v.world, e2 + (e3 + (e4 + (e5 + (e6 + Seq::<char>::empty())))));
    assert(s.skip(e1.len() as int) =~= e2 + (e3 + (e4 + (e5 + (e6 + Seq::<char>::empty())))));
    lemma_parse_enc_sn(v.base, e3 + (e4 + (e5 + (e6 + Seq::<char>::empty()))));
    assert(s.skip(e1.len() + e2.len() as int) =~= e3 + (e4 + (e5 + (e6
        + Seq::<char>::empty()))));
    lemma_parse_enc_contracts(v.contracts, e4 + (e5 + (e6 + Seq::<char>::empty())));
    assert(s.skip(e1.len() + e2.len() + e3.len() as int) =~= e4 + (e5 + (e6
        + Seq::<char>::empty())));
    lemma_parse_enc_models(v.models, e5 + (e6 + Seq::<char>::empty()));
    assert(s.skip(e1.len() + e2.len() + e3.len() + e4.len() as int) =~= e5 + (e6
        + Seq::<char>::empty()));
    lemma_parse_enc_events(v.events, e6 + Seq::<char>::empty());
    assert(s.skip(e1.len() + e2.len() + e3.len() + e4.len() + e5.len() as int) =~= e6
        + Seq::<char>::empty());
    lemma_parse_enc_sns(v.sn_contracts, Seq::<char>::empty());
    assert((DojoAnnotationView {
        world: v.world,
        base: v.base,
        contracts: v.contracts,
        models: v.models,
        events: v.events,
        sn_contracts: v.sn_contracts,
    }) == v);
    assert(s.len() == e1.len() + e2.len() + e3.len() + e4.len() + e5.len() + e6.len());
}

/// Appends the encoding of one string field.
fn encode_field(out: &mut String, s: &str)
    ensures
        final(out)@ == old(out)@ + enc_field(s@),
{
    let n = s.unicode_len();
    let mut i: usize = 0;
    proof {
        assert(s@.skip(0) =~= s@);
    }
    while i < n
        invariant
            n == s@.len(),
            i <= n,
            old(out)@ + enc_field(s@) == out@ + enc_field(s@.skip(i as int)),
        decreases n - i,
    {
        let c = s.get_char(i);
        proof {
            assert(s@.skip(i as int)[0] == s@[i as int]);
            assert(s@.skip(i as int).skip(1) =~= s@.skip(i + 1));
        }
        let ghost pre = out@;
        if c == '\\' || c == '|' {
            out.push('\\');
            out.push(c);
            proof {
                assert(out@ =~= pre + esc_char(s@[i as int]));
            }
        } else {
            out.push(c);
            proof {
                assert(out@ =~= pre + esc_char(s@[i as int]));
            }
        }
        proof {
            assert(pre + (esc_char(s@[i as int]) + enc_field(s@.skip(i + 1))) =~= (pre + esc_char(
                s@[i as int],
            )) + enc_field(s@.skip(i + 1)));
        }
        i = i + 1;
    }
    proof {
        assert(enc_field(s@.skip(n as int)) =~= seq!['|']);
    }
    let ghost pre = out@;
    out.push('|');
    proof {
        assert(out@ =~= pre + seq!['|']);
    }
}

/// Appends the encoding of a boolean.
fn encode_bool(out: &mut String, b: bool)
    ensures
        final(out)@ == old(out)@ + enc_bool(b),
{
    let ghost pre = out@;
    if b {
        out.push('1');
    } else {
        out.push('0');
    }
    proof {
        assert(out@ =~= pre + enc_bool(b));
    }
}

/// Appends the encoding of one member.
fn encode_member(out: &mut String, m: &Member)
    ensures
        final(out)@ == old(out)@ + enc_member(m@),
{
    encode_field(out, m.name.as_str());
    encode_field(out, m.ty.as_str());
    encode_bool(out, m.key);
    proof {
        assert(final(out)@ =~= old(out)@ + enc_member(m@));
    }
}

/// Appends the encoding of a member list.
fn encode_members(out: &mut String, ms: &Vec<Member>)
    ensures
        final(out)@ == old(out)@ + enc_members(ms@.map_values(|m: Member| m@)),
{
    let ghost vms = ms@.map_values(|m: Member| m@);
    let mut i: usize = 0;
    proof {
        assert(vms.skip(0) =~= vms);
    }
    while i < ms.len()
        invariant
            vms == ms@.map_values(|m: Member| m@),
            i <= ms@.len(),
            old(out)@ + enc_members(vms) == out@ + enc_members(vms.skip(i as int)),
        decreases ms@.len() - i,
    {
        proof {
            assert(vms.skip(i as int)[0] == vms[i as int]);
            assert(vms.skip(i as int).skip(1) =~= vms.skip(i + 1));
        }
        let ghost pre = out@;
        out.push('+');
        encode_member(out, &ms[i]);
        proof {
            assert(out@ =~= pre + (seq!['+'] + enc_member(vms[i as int])));
            assert(pre + ((seq!['+'] + enc_member(vms[i as int])) + enc_members(vms.skip(i + 1)))
                =~= (pre + (seq!['+'] + enc_member(vms[i as int]))) + enc_members(vms.skip(i + 1)));
            assert((seq!['+'] + enc_member(vms[i as int])) + enc_members(vms.skip(i + 1)) =~= seq![
                '+',
            ] + enc_member(vms[i as int]) + enc_members(vms.skip(i + 1)));
        }
        i = i + 1;
    }
    proof {
        assert(enc_members(vms.skip(ms@.len() as int)) =~= seq!['-']);
    }
    let ghost pre = out@;
    out.push('-');
    proof {
        assert(out@ =~= pre + seq!['-']);
    }
}

/// Appends the encoding of a string list.
fn encode_strings(out: &mut String, ss: &Vec<String>)
    ensures
        final(out)@ == old(out)@ + enc_strings(ss@.map_values(|s: String| s@)),
{
    let ghost vss = ss@.map_values(|s: String| s@);
    let mut i: usize = 0;
    proof {
        assert(vss.skip(0) =~= vss);
    }
    while i < ss.len()
        invariant
            vss == ss@.map_values(|s: String| s@),
            i <= ss@.len(),
            old(out)@ + enc_strings(vss) == out@ + enc_strings(vss.skip(i as int)),
        decreases ss@.len() - i,
    {
        proof {
            assert(vss.skip(i as int)[0] == vss[i as int]);
            assert(vss.skip(i as int).skip(1) =~= vss.skip(i + 1));
        }
        let ghost pre = out@;
        out.push('+');
        encode_field(out, ss[i].as_str());
        proof {
            assert(out@ =~= pre + (seq!['+'] + enc_field(vss[i as int])));
            assert(pre + ((seq!['+'] + enc_field(vss[i as int])) + enc_strings(vss.skip(i + 1)))
                =~= (pre + (seq!['+'] + enc_field(vss[i as int]))) + enc_strings(vss.skip(i + 1)));
            assert((seq!['+'] + enc_field(vss[i as int])) + enc_strings(vss.skip(i + 1)) =~= seq![
                '+',
            ] + enc_field(vss[i as int]) + enc_strings(vss.skip(i + 1)));
        }
        i = i + 1;
    }
    proof {
        assert(enc_strings(vss.skip(ss@.len() as int)) =~= seq!['-']);
    }
    let ghost pre = out@;
    out.push('-');
    proof {
        assert(out@ =~= pre + seq!['-']);
    }
}

/// Appends the encoding of a contract annotation.
fn encode_contract(out: &mut String, c: &ContractAnnotation)
    ensures
        final(out)@ == old(out)@ + enc_contract(c@),
{
    encode_field(out, c.qualified_path.as_str());
    encode_field(out, c.tag.as_str());
    encode_field(out, c.class_hash.as_str());
    encode_strings(out, &c.systems);
    proof {
        assert(final(out)@ =~= old(out)@ + enc_contract(c@));
    }
}

/// Appends the encoding of a model annotation.
fn encode_model(out: &mut String, m: &ModelAnnotation)
    ensures
        final(out)@ == old(out)@ + enc_model(m@),
{
    encode_field(out, m.qualified_path.as_str());
    encode_field(out, m.tag.as_str());
    encode_field(out, m.class_hash.as_str());
    encode_members(out, &m.members);
    proof {
        assert(final(out)@ =~= old(out)@ + enc_model(m@));
    }
}

/// Appends the encoding of an event annotation.
fn encode_event(out: &mut String, e: &EventAnnotation)
    ensures
        final(out)@ == old(out)@ + enc_event(e@),
{
    encode_field(out, e.qualified_path.as_str());
    encode_field(out, e.tag.as_str());
    encode_field(out, e.class_hash.as_str());
    encode_members(out, &e.members);
    proof {
        assert(final(out)@ =~= old(out)@ + enc_event(e@));
    }
}

/// Appends the encoding of a world annotation.
fn encode_world(out: &mut String, w: &WorldAnnotation)
    ensures
        final(out)@ == old(out)@ + enc_world(w@),
{
    encode_field(out, w.qualified_path.as_str());
    encode_field(out, w.tag.as_str());
    encode_field(out, w.class_hash.as_str());
    proof {
        assert(final(out)@ =~= old(out)@ + enc_world(w@));
    }
}

/// Appends the encoding of a generic Starknet contract annotation.
fn encode_sn(out: &mut String, x: &StarknetContractAnnotation)
    ensures
        final(out)@ == old(out)@ + enc_sn(x@),
{
    encode_field(out, x.qualified_path.as_str());
    encode_field(out, x.name.as_str());
    encode_field(out, x.class_hash.as_str());
    proof {
        assert(final(out)@ =~= old(out)@ + enc_sn(x@));
    }
}

/// Appends the encoding of the contract list.
fn encode_contracts(out: &mut String, cs: &Vec<ContractAnnotation>)
    ensures
        final(out)@ == old(out)@ + enc_contracts(cs@.map_values(|c: ContractAnnotation| c@)),
{
    let ghost vcs = cs@.map_values(|c: ContractAnnotation| c@);
    let mut i: usize = 0;
    proof {
        assert(vcs.skip(0) =~= vcs);
    }
    while i < cs.len()
        invariant
            vcs == cs@.map_values(|c: ContractAnnotation| c@),
            i <= cs@.len(),
            old(out)@ + enc_contracts(vcs) == out@ + enc_contracts(vcs.skip(i as int)),
        decreases cs@.len() - i,
    {
        proof {
            assert(vcs.skip(i as int)[0] == vcs[i as int]);
            assert(vcs.skip(i as int).skip(1) =~= vcs.skip(i + 1));
        }
        let ghost pre = out@;
        out.push('+');
        encode_contract(out, &cs[i]);
        proof {
            assert(out@ =~= pre + (seq!['+'] + enc_contract(vcs[i as int])));
            assert(pre + ((seq!['+'] + enc_contract(vcs[i as int])) + enc_contracts(
                vcs.skip(i + 1),
            )) =~= (pre + (seq!['+'] + enc_contract(vcs[i as int]))) + enc_contracts(
                vcs.skip(i + 1),
            ));
            assert((seq!['+'] + enc_contract(vcs[i as int])) + enc_contracts(vcs.skip(i + 1))
                =~= seq!['+'] + enc_contract(vcs[i as int]) + enc_contracts(vcs.skip(i + 1)));
        }
        i = i + 1;
    }
    proof {
        assert(enc_contracts(vcs.skip(cs@.len() as int)) =~= seq!['-']);
    }
    let ghost pre = out@;
    out.push('-');
    proof {
        assert(out@ =~= pre + seq!['-']);
    }
}

/// Appends the encoding of the model list.
fn encode_models(out: &mut String, ms: &Vec<ModelAnnotation>)
    ensures
        final(out)@ == old(out)@ + enc_models(ms@.map_values(|m: ModelAnnotation| m@)),
{
    let ghost vms = ms@.map_values(|m: ModelAnnotation| m@);
    let mut i: usize = 0;
    proof {
        assert(vms.skip(0) =~= vms);
    }
    while i < ms.len()
        invariant
            vms == ms@.map_values(|m: ModelAnnotation| m@),
            i <= ms@.len(),
            old(out)@ + enc_models(vms) == out@ + enc_models(vms.skip(i as int)),
        decreases ms@.len() - i,
    {
        proof {
            assert(vms.skip(i as int)[0] == vms[i as int]);
            assert(vms.skip(i as int).skip(1) =~= vms.skip(i + 1));
        }
        let ghost pre = out@;
        out.push('+');
        encode_model(out, &ms[i]);
        proof {
            assert(out@ =~= pre + (seq!['+'] + enc_model(vms[i as int])));
            assert(pre + ((seq!['+'] + enc_model(vms[i as int])) + enc_models(vms.skip(i + 1)))
                =~= (pre + (seq!['+'] + enc_model(vms[i as int]))) + enc_models(vms.skip(i + 1)));
            assert((seq!['+'] + enc_model(vms[i as int])) + enc_models(vms.skip(i + 1)) =~= seq![
                '+',
            ] + enc_model(vms[i as int]) + enc_models(vms.skip(i + 1)));
        }
        i = i + 1;
    }
    proof {
        assert(enc_models(vms.skip(ms@.len() as int)) =~= seq!['-']);
    }
    let ghost pre = out@;
    out.push('-');
    proof {
        assert(out@ =~= pre + seq!['-']);
    }
}

/// Appends the encoding of the event list.
fn encode_events(out: &mut String, es: &Vec<EventAnnotation>)
    ensures
        final(out)@ == old(out)@ + enc_events(es@.map_values(|e: EventAnnotation| e@)),
{
    let ghost ves = es@.map_values(|e: EventAnnotation| e@);
    let mut i: usize = 0;
    proof {
        assert(ves.skip(0) =~= ves);
    }
    while i < es.len()
        invariant
            ves == es@.map_values(|e: EventAnnotation| e@),
            i <= es@.len(),
            old(out)@ + enc_events(ves) == out@ + enc_events(ves.skip(i as int)),
        decreases es@.len() - i,
    {
        proof {
            assert(ves.skip(i as int)[0] == ves[i as int]);
            assert(ves.skip(i as int).skip(1) =~= ves.skip(i + 1));
        }
        let ghost pre = out@;
        out.push('+');
        encode_event(out, &es[i]);
        proof {
            assert(out@ =~= pre + (seq!['+'] + enc_event(ves[i as int])));
            assert(pre + ((seq!['+'] + enc_event(ves[i as int])) + enc_events(ves.skip(i + 1)))
                =~= (pre + (seq!['+'] + enc_event(ves[i as int]))) + enc_events(ves.skip(i + 1)));
            assert((seq!['+'] + enc_event(ves[i as int])) + enc_events(ves.skip(i + 1)) =~= seq![
                '+',
            ] + enc_event(ves[i as int]) + enc_events(ves.skip(i + 1)));
        }
        i = i + 1;
    }
    proof {
        assert(enc_events(ves.skip(es@.len() as int)) =~= seq!['-']);
    }
    let ghost pre = out@;
    out.push('-');
    proof {
        assert(out@ =~= pre + seq!['-']);
    }
}

/// Appends the encoding of the generic contract list.
fn encode_sns(out: &mut String, xs: &Vec<StarknetContractAnnotation>)
    ensures
        final(out)@ == old(out)@ + enc_sns(
            xs@.map_values(|x: StarknetContractAnnotation| x@),
        ),
{
    let ghost vxs = xs@.map_values(|x: StarknetContractAnnotation| x@);
    let mut i: usize = 0;
    proof {
        assert(vxs.skip(0) =~= vxs);
    }
    while i < xs.len()
        invariant
            vxs == xs@.map_values(|x: StarknetContractAnnotation| x@),
            i <= xs@.len(),
            old(out)@ + enc_sns(vxs) == out@ + enc_sns(vxs.skip(i as int)),
        decreases xs@.len() - i,
    {
        proof {
            assert(vxs.skip(i as int)[0] == vxs[i as int]);
            assert(vxs.skip(i as int).skip(1) =~= vxs.skip(i + 1));
        }
        let ghost pre = out@;
        out.push('+');
        encode_sn(out, &xs[i]);
        proof {
            assert(out@ =~= pre + (seq!['+'] + enc_sn(vxs[i as int])));
            assert(pre + ((seq!['+'] + enc_sn(vxs[i as int])) + enc_sns(vxs.skip(i + 1))) =~= (pre
                + (seq!['+'] + enc_sn(vxs[i as int]))) + enc_sns(vxs.skip(i + 1)));
            assert((seq!['+'] + enc_sn(vxs[i as int])) + enc_sns(vxs.skip(i + 1)) =~= seq!['+']
                + enc_sn(vxs[i as int]) + enc_sns(vxs.skip(i + 1)));
        }
        i = i + 1;
    }
    proof {
        assert(enc_sns(vxs.skip(xs@.len() as int)) =~= seq!['-']);
    }
    let ghost pre = out@;
    out.push('-');
    proof {
        assert(out@ =~= pre + seq!['-']);
    }
}

/// Encodes a whole annotation set into its manifest text.
pub fn encode_manifest(a: &DojoAnnotation) -> (r: String)
    ensures
        r@ == enc_manifest(a@),
{
    let mut out = String::new();
    encode_world(&mut out, &a.world);
    encode_sn(&mut out, &a.base);
    encode_contracts(&mut out, &a.contracts);
    encode_models(&mut out, &a.models);
    encode_events(&mut out, &a.events);
    encode_sns(&mut out, &a.sn_contracts);
    proof {
        assert(out@ =~= enc_manifest(a@));
    }
    out
}

/// Parses one string field starting at `pos`, appending the field value to
/// `out` and returning the position after the terminator.
fn parse_field_exec(s: &str, pos: usize, out: &mut String) -> (r: Option<usize>)
    requires
        pos <= s@.len(),
    ensures
        match parse_field(s@.skip(pos as int)) {
            Some((v, n)) => r is Some && r->0 == pos + n && pos + n <= s@.len() && final(out)@
                == old(out)@ + v,
            None => r is None,
        },
    decreases s@.len() - pos,
{
    let n = s.unicode_len();
    if pos == n {
        return None;
    }
    let c = s.get_char(pos);
    proof {
        assert(s@.skip(pos as int)[0] == s@[pos as int]);
    }
    if c == '|' {
        proof {
            assert(out@ + Seq::<char>::empty() =~= out@);
        }
        return Some(pos + 1);
    }
    if c == '\\' {
        if pos + 1 == n {
            proof {
                assert(s@.skip(pos as int).len() < 2);
            }
            return None;
        }
        let c2 = s.get_char(pos + 1);
        proof {
            assert(s@.skip(pos as int)[1] == s@[pos + 1]);
            assert(s@.skip(pos as int).skip(2) =~= s@.skip(pos + 2));
        }
        let ghost pre = out@;
        out.push(c2);
        let r = parse_field_exec(s, pos + 2, out);
        proof {
            match parse_field(s@.skip(pos + 2)) {
                Some((v, m)) => {
                    assert(final(out)@ =~= pre + (seq![c2] + v));
                },
                None => {},
            }
        }
        return r;
    }
    proof {
        assert(s@.skip(pos as int).skip(1) =~= s@.skip(pos + 1));
    }
    let ghost pre = out@;
    out.push(c);
    let r = parse_field_exec(s, pos + 1, out);
    proof {
        match parse_field(s@.skip(pos + 1)) {
            Some((v, m)) => {
                assert(final(out)@ =~= pre + (seq![c] + v));
            },
            None => {},
        }
    }
    r
}

/// Parses one boolean at `pos`.
fn parse_bool_exec(s: &str, pos: usize) -> (r: Option<(bool, usize)>)
    requires
        pos <= s@.len(),
    ensures
        match parse_bool(s@.skip(pos as int)) {
            Some((b, n)) => r is Some && r->Some_0.0 == b && r->Some_0.1 == pos + n && pos + n <= s@.len(),
            None => r is None,
        },
{
    let n = s.unicode_len();
    if pos == n {
        return None;
    }
    let c = s.get_char(pos);
    proof {
        assert(s@.skip(pos as int)[0] == s@[pos as int]);
    }
    if c == '0' {
        Some((false, pos + 1))
    } else if c == '1' {
        Some((true, pos + 1))
    } else {
        None
    }
}

/// Parses one member at `pos`.
fn parse_member_exec(s: &str, pos: usize) -> (r: Option<(Member, usize)>)
    requires
        pos <= s@.len(),
    ensures
        match parse_member(s@.skip(pos as int)) {
            Some((m, n)) => r is Some && r->Some_0.0@ == m && r->Some_0.1 == pos + n && pos + n <= s@.len(),
            None => r is None,
        },
{
    let mut name = String::new();
    proof {
        lemma_parse_field_bounds(s@.skip(pos as int));
    }
    let p1 = match parse_field_exec(s, pos, &mut name) {
        Some(p) => p,
        None => {
            return None;
        },
    };
    proof {
        lemma_parse_field_bounds(s@.skip(p1 as int));
        assert(s@.skip(pos as int).skip(p1 - pos) =~= s@.skip(p1 as int));
    }
    let mut ty = String::new();
    let p2 = match parse_field_exec(s, p1, &mut ty) {
        Some(p) => p,
        None => {
            return None;
        },
    };
    proof {
        assert(s@.skip(pos as int).skip(p2 - pos) =~= s@.skip(p2 as int));
    }
    let (key, p3) = match parse_bool_exec(s, p2) {
        Some(kp) => kp,
        None => {
            return None;
        },
    };
    Some((Member { name, ty, key }, p3))
}

/// Parses a member list at `pos`.
fn parse_members_exec(s: &str, pos: usize) -> (r: Option<(Vec<Member>, usize)>)
    requires
        pos <= s@.len(),
    ensures
        match parse_members(s@.skip(pos as int)) {
            Some((ms, n)) => r is Some && r->Some_0.0@.map_values(|m: Member| m@) == ms && r->Some_0.1 == pos
                + n && pos + n <= s@.len(),
            None => r is None,
        },
{
    let n = s.unicode_len();
    let mut acc: Vec<Member> = Vec::new();
    let mut p = pos;
    loop
        invariant
            pos <= p <= n,
            n == s@.len(),
            match parse_members(s@.skip(p as int)) {
                Some((ms, m)) => parse_members(s@.skip(pos as int)) == Some(
                    (acc@.map_values(|x: Member| x@) + ms, (p - pos) + m),
                ),
                None => parse_members(s@.skip(pos as int)) is None,
            },
        decreases n - p,
    {
        if p == n {
            return None;
        }
        let c = s.get_char(p);
        proof {
            assert(s@.skip(p as int)[0] == s@[p as int]);
        }
        if c == '-' {
            proof {
                assert(acc@.map_values(|x: Member| x@) + Seq::<MemberView>::empty()
                    =~= acc@.map_values(|x: Member| x@));
            }
            return Some((acc, p + 1));
        }
        if c != '+' {
            return None;
        }
        proof {
            assert(s@.skip(p as int).skip(1) =~= s@.skip(p + 1));
        }
        match parse_member_exec(s, p + 1) {
            None => {
                return None;
            },
            Some((mem, p2)) => {
                proof {
                    lemma_parse_member_bounds(s@.skip(p + 1));
                    let ghost_m = parse_member(s@.skip(p + 1))->Some_0;
                    assert(s@.skip(p as int).skip(1 + ghost_m.1) =~= s@.skip(p2 as int));
                    let av = acc@.map_values(|x: Member| x@);
                    match parse_members(s@.skip(p2 as int)) {
                        Some((ms2, m2)) => {
                            assert(av + (seq![ghost_m.0] + ms2) =~= (av + seq![ghost_m.0]) + ms2);
                            assert(acc@.push(mem).map_values(|x: Member| x@) =~= av + seq![
                                ghost_m.0,
                            ]);
                        },
                        None => {},
                    }
                }
                acc.push(mem);
                p = p2;
            },
        }
    }
}

/// Parses a string list at `pos`.
fn parse_strings_exec(s: &str, pos: usize) -> (r: Option<(Vec<String>, usize)>)
    requires
        pos <= s@.len(),
    ensures
        match parse_strings(s@.skip(pos as int)) {
            Some((ss, n)) => r is Some && r->Some_0.0@.map_values(|x: String| x@) == ss && r->Some_0.1 == pos
                + n && pos + n <= s@.len(),
            None => r is None,
        },
{
    let n = s.unicode_len();
    let mut acc: Vec<String> = Vec::new();
    let mut p = pos;
    loop
        invariant
            pos <= p <= n,
            n == s@.len(),
            match parse_strings(s@.skip(p as int)) {
                Some((ss, m)) => parse_strings(s@.skip(pos as int)) == Some(
                    (acc@.map_values(|x: String| x@) + ss, (p - pos) + m),
                ),
                None => parse_strings(s@.skip(pos as int)) is None,
            },
        decreases n - p,
    {
        if p == n {
            return None;
        }
        let c = s.get_char(p);
        proof {
            assert(s@.skip(p as int)[0] == s@[p as int]);
        }
        if c == '-' {
            proof {
                assert(acc@.map_values(|x: String| x@) + Seq::<Seq<char>>::empty()
                    =~= acc@.map_values(|x: String| x@));
            }
            return Some((acc, p + 1));
        }
        if c != '+' {
            return None;
        }
        proof {
            assert(s@.skip(p as int).skip(1) =~= s@.skip(p + 1));
        }
        let mut field = String::new();
        match parse_field_exec(s, p + 1, &mut field) {
            None => {
                return None;
            },
            Some(p2) => {
                proof {
                    lemma_parse_field_bounds(s@.skip(p + 1));
                    let ghost_v = parse_field(s@.skip(p + 1))->Some_0;
                    assert(s@.skip(p as int).skip(1 + ghost_v.1) =~= s@.skip(p2 as int));
                    let av = acc@.map_values(|x: String| x@);
                    match parse_strings(s@.skip(p2 as int)) {
                        Some((ss2, m2)) => {
                            assert(av + (seq![ghost_v.0] + ss2) =~= (av + seq![ghost_v.0]) + ss2);
                            assert(acc@.push(field).map_values(|x: String| x@) =~= av + seq![
                                ghost_v.0,
                            ]);
                        },
                        None => {},
                    }
                }
                acc.push(field);
                p = p2;
            },
        }
    }
}

/// Parses three consecutive string fields at `pos`.
fn parse_triple_exec(s: &str, pos: usize) -> (r: Option<(String, String, String, usize)>)
    requires
        pos <= s@.len(),
    ensures
        match parse_triple(s@.skip(pos as int)) {
            Some((t, n)) => r is Some && r->Some_0.0@ == t.0 && r->Some_0.1@ == t.1 && r->Some_0.2@ == t.2
                && r->Some_0.3 == pos + n && pos + n <= s@.len(),
            None => r is None,
        },
{
    let mut a = String::new();
    proof {
        lemma_parse_field_bounds(s@.skip(pos as int));
    }
    let p1 = match parse_field_exec(s, pos, &mut a) {
        Some(p) => p,
        None => {
            return None;
        },
    };
    proof {
        lemma_parse_field_bounds(s@.skip(p1 as int));
        assert(s@.skip(pos as int).skip(p1 - pos) =~= s@.skip(p1 as int));
    }
    let mut b = String::new();
    let p2 = match parse_field_exec(s, p1, &mut b) {
        Some(p) => p,
        None => {
            return None;
        },
    };
    proof {
        assert(s@.skip(pos as int).skip(p2 - pos) =~= s@.skip(p2 as int));
    }
    let mut c = String::new();
    let p3 = match parse_field_exec(s, p2, &mut c) {
        Some(p) => p,
        None => {
            return None;
        },
    };
    Some((a, b, c, p3))
}

/// Parses one contract annotation at `pos`.
fn parse_contract_exec(s: &str, pos: usize) -> (r: Option<(ContractAnnotation, usize)>)
    requires
        pos <= s@.len(),
    ensures
        match parse_contract(s@.skip(pos as int)) {
            Some((c, n)) => r is Some && r->Some_0.0@ == c && r->Some_0.1 == pos + n && pos + n <= s@.len(),
            None => r is None,
        },
{
    let (qp, tag, hash, p1) = match parse_triple_exec(s, pos) {
        Some(t) => t,
        None => {
            return None;
        },
    };
    proof {
        lemma_parse_triple_bounds(s@.skip(pos as int));
        assert(s@.skip(pos as int).skip(p1 - pos) =~= s@.skip(p1 as int));
    }
    let (systems, p2) = match parse_strings_exec(s, p1) {
        Some(v) => v,
        None => {
            return None;
        },
    };
    Some((ContractAnnotation { qualified_path: qp, tag, class_hash: hash, systems }, p2))
}

/// Parses one model annotation at `pos`.
fn parse_model_exec(s: &str, pos: usize) -> (r: Option<(ModelAnnotation, usize)>)
    requires
        pos <= s@.len(),
    ensures
        match parse_model(s@.skip(pos as int)) {
            Some((m, n)) => r is Some && r->Some_0.0@ == m && r->Some_0.1 == pos + n && pos + n <= s@.len(),
            None => r is None,
        },
{
    let (qp, tag, hash, p1) = match parse_triple_exec(s, pos) {
        Some(t) => t,
        None => {
            return None;
        },
    };
    proof {
        lemma_parse_triple_bounds(s@.skip(pos as int));
        assert(s@.skip(pos as int).skip(p1 - pos) =~= s@.skip(p1 as int));
    }
    let (members, p2) = match parse_members_exec(s, p1) {
        Some(v) => v,
        None => {
            return None;
        },
    };
    Some((ModelAnnotation { qualified_path: qp, tag, class_hash: hash, members }, p2))
}

/// Parses one event annotation at `pos`.
fn parse_event_exec(s: &str, pos: usize) -> (r: Option<(EventAnnotation, usize)>)
    requires
        pos <= s@.len(),
    ensures
        match parse_event(s@.skip(pos as int)) {
            Some((e, n)) => r is Some && r->Some_0.0@ == e && r->Some_0.1 == pos + n && pos + n <= s@.len(),
            None => r is None,
        },
{
    let (qp, tag, hash, p1) = match parse_triple_exec(s, pos) {
        Some(t) => t,
        None => {
            return None;
        },
    };
    proof {
        lemma_parse_triple_bounds(s@.skip(pos as int));
        assert(s@.skip(pos as int).skip(p1 - pos) =~= s@.skip(p1 as int));
    }
    let (members, p2) = match parse_members_exec(s, p1) {
        Some(v) => v,
        None => {
            return None;
        },
    };
    Some((EventAnnotation { qualified_path: qp, tag, class_hash: hash, members }, p2))
}

/// Parses one generic Starknet contract annotation at `pos`.
fn parse_sn_exec(s: &str, pos: usize) -> (r: Option<(StarknetContractAnnotation, usize)>)
    requires
        pos <= s@.len(),
    ensures
        match parse_sn(s@.skip(pos as int)) {
            Some((x, n)) => r is Some && r->Some_0.0@ == x && r->Some_0.1 == pos + n && pos + n <= s@.len(),
            None => r is None,
        },
{
    let (qp, name, hash, p1) = match parse_triple_exec(s, pos) {
        Some(t) => t,
        None => {
            return None;
        },
    };
    Some((StarknetContractAnnotation { qualified_path: qp, name, class_hash: hash }, p1))
}

/// Parses the contract list at `pos`.
fn parse_contracts_exec(s: &str, pos: usize) -> (r: Option<(Vec<ContractAnnotation>, usize)>)
    requires
        pos <= s@.len(),
    ensures
        match parse_contracts(s@.skip(pos as int)) {
            Some((cs, n)) => r is Some && r->Some_0.0@.map_values(|c: ContractAnnotation| c@) == cs
                && r->Some_0.1 == pos + n && pos + n <= s@.len(),
            None => r is None,
        },
{
    let n = s.unicode_len();
    let mut acc: Vec<ContractAnnotation> = Vec::new();
    let mut p = pos;
    loop
        invariant
            pos <= p <= n,
            n == s@.len(),
            match parse_contracts(s@.skip(p as int)) {
                Some((cs, m)) => parse_contracts(s@.skip(pos as int)) == Some(
                    (acc@.map_values(|x: ContractAnnotation| x@) + cs, (p - pos) + m),
                ),
                None => parse_contracts(s@.skip(pos as int)) is None,
            },
        decreases n - p,
    {
        if p == n {
            return None;
        }
        let c = s.get_char(p);
        proof {
            assert(s@.skip(p as int)[0] == s@[p as int]);
        }
        if c == '-' {
            proof {
                assert(acc@.map_values(|x: ContractAnnotation| x@)
                    + Seq::<ContractAnnotationView>::empty() =~= acc@.map_values(
                    |x: ContractAnnotation| x@,
                ));
            }
            return Some((acc, p + 1));
        }
        if c != '+' {
            return None;
        }
        proof {
            assert(s@.skip(p as int).skip(1) =~= s@.skip(p + 1));
        }
        match parse_contract_exec(s, p + 1) {
            None => {
                return None;
            },
            Some((cann, p2)) => {
                proof {
                    lemma_parse_contract_bounds(s@.skip(p + 1));
                    let ghost_c = parse_contract(s@.skip(p + 1))->Some_0;
                    assert(s@.skip(p as int).skip(1 + ghost_c.1) =~= s@.skip(p2 as int));
                    let av = acc@.map_values(|x: ContractAnnotation| x@);
                    match parse_contracts(s@.skip(p2 as int)) {
                        Some((cs2, m2)) => {
                            assert(av + (seq![ghost_c.0] + cs2) =~= (av + seq![ghost_c.0]) + cs2);
                            assert(acc@.push(cann).map_values(|x: ContractAnnotation| x@) =~= av
                                + seq![ghost_c.0]);
                        },
                        None => {},
                    }
                }
                acc.push(cann);
                p = p2;
            },
        }
    }
}

/// Parses the model list at `pos`.
fn parse_models_exec(s: &str, pos: usize) -> (r: Option<(Vec<ModelAnnotation>, usize)>)
    requires
        pos <= s@.len(),
    ensures
        match parse_models(s@.skip(pos as int)) {
            Some((ms, n)) => r is Some && r->Some_0.0@.map_values(|m: ModelAnnotation| m@) == ms
                && r->Some_0.1 == pos + n && pos + n <= s@.len(),
            None => r is None,
        },
{
    let n = s.unicode_len();
    let mut acc: Vec<ModelAnnotation> = Vec::new();
    let mut p = pos;
    loop
        invariant
            pos <= p <= n,
            n == s@.len(),
            match parse_models(s@.skip(p as int)) {
                Some((ms, m)) => parse_models(s@.skip(pos as int)) == Some(
                    (acc@.map_values(|x: ModelAnnotation| x@) + ms, (p - pos) + m),
                ),
                None => parse_models(s@.skip(pos as int)) is None,
            },
        decreases n - p,
    {
        if p == n {
            return None;
        }
        let c = s.get_char(p);
        proof {
            assert(s@.skip(p as int)[0] == s@[p as int]);
        }
        if c == '-' {
            proof {
                assert(acc@.map_values(|x: ModelAnnotation| x@)
                    + Seq::<ModelAnnotationView>::empty() =~= acc@.map_values(
                    |x: ModelAnnotation| x@,
                ));
            }
            return Some((acc, p + 1));
        }
        if c != '+' {
            return None;
        }
        proof {
            assert(s@.skip(p as int).skip(1) =~= s@.skip(p + 1));
        }
        match parse_model_exec(s, p + 1) {
            None => {
                return None;
            },
            Some((mann, p2)) => {
                proof {
                    lemma_parse_model_bounds(s@.skip(p + 1));
                    let ghost_m = parse_model(s@.skip(p + 1))->Some_0;
                    assert(s@.skip(p as int).skip(1 + ghost_m.1) =~= s@.skip(p2 as int));
                    let av = acc@.map_values(|x: ModelAnnotation| x@);
                    match parse_models(s@.skip(p2 as int)) {
                        Some((ms2, m2)) => {
                            assert(av + (seq![ghost_m.0] + ms2) =~= (av + seq![ghost_m.0]) + ms2);
                            assert(acc@.push(mann).map_values(|x: ModelAnnotation| x@) =~= av
                                + seq![ghost_m.0]);
                        },
                        None => {},
                    }
                }
                acc.push(mann);
                p = p2;
            },
        }
    }
}

/// Parses the event list at `pos`.
fn parse_events_exec(s: &str, pos: usize) -> (r: Option<(Vec<EventAnnotation>, usize)>)
    requires
        pos <= s@.len(),
    ensures
        match parse_events(s@.skip(pos as int)) {
            Some((es, n)) => r is Some && r->Some_0.0@.map_values(|e: EventAnnotation| e@) == es
                && r->Some_0.1 == pos + n && pos + n <= s@.len(),
            None => r is None,
        },
{
    let n = s.unicode_len();
    let mut acc: Vec<EventAnnotation> = Vec::new();
    let mut p = pos;
    loop
        invariant
            pos <= p <= n,
            n == s@.len(),
            match parse_events(s@.skip(p as int)) {
                Some((es, m)) => parse_events(s@.skip(pos as int)) == Some(
                    (acc@.map_values(|x: EventAnnotation| x@) + es, (p - pos) + m),
                ),
                None => parse_events(s@.skip(pos as int)) is None,
            },
        decreases n - p,
    {
        if p == n {
            return None;
        }
        let c = s.get_char(p);
        proof {
            assert(s@.skip(p as int)[0] == s@[p as int]);
        }
        if c == '-' {
            proof {
                assert(acc@.map_values(|x: EventAnnotation| x@)
                    + Seq::<EventAnnotationView>::empty() =~= acc@.map_values(
                    |x: EventAnnotation| x@,
                ));
            }
            return Some((acc, p + 1));
        }
        if c != '+' {
            return None;
        }
        proof {
            assert(s@.skip(p as int).skip(1) =~= s@.skip(p + 1));
        }
        match parse_event_exec(s, p + 1) {
            None => {
                return None;
            },
            Some((eann, p2)) => {
                proof {
                    lemma_parse_event_bounds(s@.skip(p + 1));
                    let ghost_e = parse_event(s@.skip(p + 1))->Some_0;
                    assert(s@.skip(p as int).skip(1 + ghost_e.1) =~= s@.skip(p2 as int));
                    let av = acc@.map_values(|x: EventAnnotation| x@);
                    match parse_events(s@.skip(p2 as int)) {
                        Some((es2, m2)) => {
                            assert(av + (seq![ghost_e.0] + es2) =~= (av + seq![ghost_e.0]) + es2);
                            assert(acc@.push(eann).map_values(|x: EventAnnotation| x@) =~= av
                                + seq![ghost_e.0]);
                        },
                        None => {},
                    }
                }
                acc.push(eann);
                p = p2;
            },
        }
    }
}

/// Parses the generic contract list at `pos`.
fn parse_sns_exec(s: &str, pos: usize) -> (r: Option<(Vec<StarknetContractAnnotation>, usize)>)
    requires
        pos <= s@.len(),
    ensures
        match parse_sns(s@.skip(pos as int)) {
            Some((xs, n)) => r is Some && r->Some_0.0@.map_values(|x: StarknetContractAnnotation| x@)
                == xs && r->Some_0.1 == pos + n && pos + n <= s@.len(),
            None => r is None,
        },
{
    let n = s.unicode_len();
    let mut acc: Vec<StarknetContractAnnotation> = Vec::new();
    let mut p = pos;
    loop
        invariant
            pos <= p <= n,
            n == s@.len(),
            match parse_sns(s@.skip(p as int)) {
                Some((xs, m)) => parse_sns(s@.skip(pos as int)) == Some(
                    (acc@.map_values(|x: StarknetContractAnnotation| x@) + xs, (p - pos) + m),
                ),
                None => parse_sns(s@.skip(pos as int)) is None,
            },
        decreases n - p,
    {
        if p == n {
            return None;
        }
        let c = s.get_char(p);
        proof {
            assert(s@.skip(p as int)[0] == s@[p as int]);
        }
        if c == '-' {
            proof {
                assert(acc@.map_values(|x: StarknetContractAnnotation| x@)
                    + Seq::<StarknetContractAnnotationView>::empty() =~= acc@.map_values(
                    |x: StarknetContractAnnotation| x@,
                ));
            }
            return Some((acc, p + 1));
        }
        if c != '+' {
            return None;
        }
        proof {
            assert(s@.skip(p as int).skip(1) =~= s@.skip(p + 1));
        }
        match parse_sn_exec(s, p + 1) {
            None => {
                return None;
            },
            Some((xann, p2)) => {
                proof {
                    lemma_parse_sn_bounds(s@.skip(p + 1));
                    let ghost_x = parse_sn(s@.skip(p + 1))->Some_0;
                    assert(s@.skip(p as int).skip(1 + ghost_x.1) =~= s@.skip(p2 as int));
                    let av = acc@.map_values(|x: StarknetContractAnnotation| x@);
                    match parse_sns(s@.skip(p2 as int)) {
                        Some((xs2, m2)) => {
                            assert(av + (seq![ghost_x.0] + xs2) =~= (av + seq![ghost_x.0]) + xs2);
                            assert(acc@.push(xann).map_values(|x: StarknetContractAnnotation| x@)
                                =~= av + seq![ghost_x.0]);
                        },
                        None => {},
                    }
                }
                acc.push(xann);
                p = p2;
            },
        }
    }
}

/// Decodes a whole manifest. Returns the annotation set when the text is a
/// complete, well-formed manifest with nothing trailing, and nothing
/// otherwise.
pub fn decode_manifest(s: &str) -> (r: Option<DojoAnnotation>)
    ensures
        match parse_manifest(s@) {
            Some((v, n)) => if n == s@.len() {
                r is Some && r->0@ == v
            } else {
                r is None
            },
            None => r is None,
        },
{
    proof {
        assert(s@.skip(0) =~= s@);
    }
    let n = s.unicode_len();
    let (wqp, wtag, whash, p1) = match parse_triple_exec(s, 0) {
        Some(t) => t,
        None => {
            return None;
        },
    };
    let world = WorldAnnotation { qualified_path: wqp, tag: wtag, class_hash: whash };
    proof {
        assert(s@.skip(0int).skip(p1 as int) =~= s@.skip(p1 as int));
    }
    let (base, p2) = match parse_sn_exec(s, p1) {
        Some(v) => v,
        None => {
            return None;
        },
    };
    proof {
        assert(s@.skip(0int).skip(p2 as int) =~= s@.skip(p2 as int));
    }
    let (contracts, p3) = match parse_contracts_exec(s, p2) {
        Some(v) => v,
        None => {
            return None;
        },
    };
    proof {
        assert(s@.skip(0int).skip(p3 as int) =~= s@.skip(p3 as int));
    }
    let (models, p4) = match parse_models_exec(s, p3) {
        Some(v) => v,
        None => {
            return None;
        },
    };
    proof {
        assert(s@.skip(0int).skip(p4 as int) =~= s@.skip(p4 as int));
    }
    let (events, p5) = match parse_events_exec(s, p4) {
        Some(v) => v,
        None => {
            return None;
        },
    };
    proof {
        assert(s@.skip(0int).skip(p5 as int) =~= s@.skip(p5 as int));
    }
    let (sn_contracts, p6) = match parse_sns_exec(s, p5) {
        Some(v) => v,
        None => {
            return None;
        },
    };
    if p6 != n {
        return None;
    }
    Some(DojoAnnotation { world, base, contracts, models, events, sn_contracts })
}

} // verus!
