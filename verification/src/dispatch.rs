//! The command dispatcher: resolves a command's declared type tag to the
//! matching store operation and renders the outcome as the response the
//! client reads.  Floating-point parsing, formatting and addition cannot
//! live here; those commands come back as explicit work items that the
//! caller performs against the store's bit-pattern operations.

use vstd::prelude::*;
use crate::command::Command;
use crate::key_search::{glob_ok, regex_ok, glob_filter_spec, regex_filter_spec, glob_filter, regex_filter, views_of};
use crate::numtext::{dec_nat, u64_to_string};
use crate::smirk_map::{SmirkMap, set_effect, get_spec, GetOutcome, AccOutcome, accum_spec, del_seq_map, del_seq_count, tries_del_seq, trie_chain_ok, trie_del_step};
use crate::smirk_messages::{set_key_msg, parse_error_msg, key_not_found_msg, type_mismatch_msg, add_overflow_msg};
use crate::smirk_search_mode::SmirkSearchMode;
use crate::strutil::lossy_utf8;
use crate::trie::{Trie, continuations, spec_inserted};
use crate::value::{Kind, Value, spec_tag_kind, tag_kind, spec_kind_name, parse_ok, format_text, format_value, is_int_kind, kind_class};

verus! {

/// Floating-point work the dispatcher hands back to its caller: the
/// text-to-bits and bits-to-text conversions happen there, against the
/// store's bit-pattern operations.  The first field selects the 64-bit
/// kind when true.
#[derive(Debug)]
pub enum FloatRequest {
    /// Parse the raw bytes as the floating kind and store the bit pattern
    /// under the key, with the declared tag.
    SetFloat(bool, String, Vec<u8>, String),
    /// Read the bit pattern under the key and render it.
    GetFloat(bool, String),
    /// Gather the bit patterns under the keys and fold them with
    /// floating-point addition.
    AddFloat(bool, Vec<String>),
}

/// What the dispatcher answers: text to write back, raw bytes to write
/// back (followed by a newline), a farewell before closing, nothing at
/// all, or floating-point work for the caller.
#[derive(Debug)]
pub enum Response {
    /// UTF-8 text, already newline-terminated where the protocol says so.
    Text(String),
    /// The raw stored bytes, written verbatim.
    Bytes(Vec<u8>),
    /// The farewell text; the connection closes after it.
    Quit(String),
    /// No reply at all.
    Nothing,
    /// Floating-point work for the caller.
    Float(FloatRequest),
}

/// The reply to `KEYS` when nothing matches.
pub open spec fn no_matches_msg(pattern: Seq<char>) -> Seq<char> {
    "No matches for key query \""@ + pattern + "\" were found.\n"@
}

/// The reply to `KEYS` when the pattern does not compile.
pub open spec fn invalid_pattern_msg(pattern: Seq<char>) -> Seq<char> {
    "Invalid pattern \""@ + pattern + "\".\n"@
}

/// The reply to `TTL` for a record that never expires.
pub open spec fn not_expire_msg(key: Seq<char>) -> Seq<char> {
    "Key \""@ + key + "\" does not expire.\n"@
}

/// The reply to `TTL` for an absent key.
pub open spec fn not_exist_msg(key: Seq<char>) -> Seq<char> {
    "Key \""@ + key + "\" does not exist.\n"@
}

/// The reply to `TYPE`: the stored kind and the tag the client named.
pub open spec fn type_report_msg(stored: Seq<char>, desired: Seq<char>) -> Seq<char> {
    "Stored-Type: "@ + stored + ", User-Type: "@ + desired + "\n"@
}

/// The reply to `SAVE`, which is not supported.
pub open spec fn save_msg() -> Seq<char> {
    "SAVE is not supported.\n"@
}

/// The farewell reply to `QUIT`.
pub open spec fn bye_msg() -> Seq<char> {
    "Bye.\n"@
}

/// The matching keys joined with newlines between them.
pub open spec fn joined_keys(ks: Seq<Seq<char>>) -> Seq<char>
    decreases ks.len(),
{
    if ks.len() == 0 {
        Seq::empty()
    } else if ks.len() == 1 {
        ks[0]
    } else {
        joined_keys(ks.drop_last()) + seq!['\n'] + ks.last()
    }
}

/// One line per entry: each followed by a newline.
pub open spec fn lines_text(ss: Seq<Seq<char>>) -> Seq<char>
    decreases ss.len(),
{
    if ss.len() == 0 {
        Seq::empty()
    } else {
        lines_text(ss.drop_last()) + ss.last() + seq!['\n']
    }
}

/// Joins keys with newlines between them.
fn join_keys(ks: &Vec<String>) -> (r: String)
    ensures
        r@ == joined_keys(views_of(ks@)),
{
    let ghost vs = views_of(ks@);
    let n = ks.len();
    let mut out = String::new();
    let mut i: usize = 0;
    proof {
        assert(vs.take(0) =~= Seq::<Seq<char>>::empty());
    }
    while i < n
        invariant
            0 <= i <= n,
            n == ks@.len(),
            vs == views_of(ks@),
            out@ == joined_keys(vs.take(i as int)),
        decreases n - i,
    {
        if i > 0 {
            out.append("\n");
        }
        out.append(ks[i].as_str());
        proof {
            assert(vs.take(i as int + 1).drop_last() =~= vs.take(i as int));
            assert(vs.take(i as int + 1).last() == vs[i as int]);
            assert(vs[i as int] == ks@[i as int]@);
            reveal_strlit("\n");
            if i == 0 {
                assert(out@ =~= joined_keys(vs.take(i as int + 1)));
            } else {
                assert(out@ =~= joined_keys(vs.take(i as int)) + seq!['\n'] + vs[i as int]);
                assert(out@ =~= joined_keys(vs.take(i as int + 1)));
            }
        }
        i = i + 1;
    }
    proof {
        assert(vs.take(n as int) =~= vs);
    }
    out
}

/// Writes each entry on a line of its own.
fn join_lines(ss: &Vec<String>) -> (r: String)
    ensures
        r@ == lines_text(views_of(ss@)),
{
    let ghost vs = views_of(ss@);
    let n = ss.len();
    let mut out = String::new();
    let mut i: usize = 0;
    proof {
        assert(vs.take(0) =~= Seq::<Seq<char>>::empty());
    }
    while i < n
        invariant
            0 <= i <= n,
            n == ss@.len(),
            vs == views_of(ss@),
            out@ == lines_text(vs.take(i as int)),
        decreases n - i,
    {
        out.append(ss[i].as_str());
        out.append("\n");
        proof {
            assert(vs.take(i as int + 1).drop_last() =~= vs.take(i as int));
            assert(vs.take(i as int + 1).last() == vs[i as int]);
            assert(vs[i as int] == ss@[i as int]@);
            reveal_strlit("\n");
            assert(out@ =~= lines_text(vs.take(i as int + 1)));
        }
        i = i + 1;
    }
    proof {
        assert(vs.take(n as int) =~= vs);
    }
    out
}

/// Builds a quoted-subject message: the text before the quotes, the
/// subject, and the text after them.
fn quoted_msg(before: &str, subject: &str, after: &str) -> (r: String)
    ensures
        r@ == before@ + subject@ + after@,
{
    let mut out = String::from_str(before);
    out.append(subject);
    out.append(after);
    proof {
        assert(out@ =~= before@ + subject@ + after@);
    }
    out
}


/// Carries out a `SET`: resolves the tag, parses and stores the value (or
/// hands floating-point tags back as work), and renders the outcome.
fn set_command(map: &mut SmirkMap, t: &String, k: &String, v: &Vec<u8>) -> (r: Response)
    requires
        old(map).wf(),
    ensures
        final(map).wf(),
        ({
            let kind = spec_tag_kind(t@);
            if kind == Kind::F32 || kind == Kind::F64 {
                &&& (r matches Response::Float(f) && f matches FloatRequest::SetFloat(w, fk, raw, d)
                    && w == (kind == Kind::F64) && fk@ == k@ && raw@ == v@ && d@ == t@)
                &&& *final(map) == *old(map)
            } else {
                &&& final(map).search_mode == old(map).search_mode
                &&& (parse_ok(kind, lossy_utf8(v@)) ==> {
                    &&& set_effect(old(map).contents(), final(map).contents(), k@, v@, kind, t@)
                    &&& spec_inserted(old(map).spec_trie(), k@, final(map).spec_trie())
                    &&& (r matches Response::Text(s) && s@ == set_key_msg(
                        k@,
                        spec_kind_name(kind),
                        t@,
                    ))
                })
                &&& (!parse_ok(kind, lossy_utf8(v@)) ==> {
                    &&& *final(map) == *old(map)
                    &&& (r matches Response::Text(s) && s@ == parse_error_msg(
                        k@,
                        lossy_utf8(v@),
                        spec_kind_name(kind),
                    ))
                })
            }
        }),
{
    let kind = tag_kind(t.as_str());
    if kind == Kind::F32 || kind == Kind::F64 {
        let raw = v.clone();
        proof {
            assert(raw@ =~= v@);
        }
        Response::Float(FloatRequest::SetFloat(kind == Kind::F64, k.clone(), raw, t.clone()))
    } else {
        match map.set(k, v.clone(), kind, t) {
            Ok(m) => Response::Text(m.to_string()),
            Err(e) => Response::Text(e.to_string()),
        }
    }
}

/// Carries out a `GET`: the stored value of the requested kind is
/// rendered (bytes verbatim, floating-point tags as work items), and an
/// absent key or a mismatched kind is reported.
fn get_command(map: &SmirkMap, t: &String, k: &String) -> (r: Response)
    requires
        map.wf(),
    ensures
        ({
            let kind = spec_tag_kind(t@);
            if kind == Kind::F32 || kind == Kind::F64 {
                r matches Response::Float(f) && f matches FloatRequest::GetFloat(w, fk) && w == (
                kind == Kind::F64) && fk@ == k@
            } else {
                match get_spec(map.contents(), k@, kind) {
                    GetOutcome::Found(v) => if kind == Kind::Bytes {
                        r matches Response::Bytes(b) && v matches Value::Bytes(bb) && b@ == bb@
                    } else {
                        r matches Response::Text(s) && s@ == format_text(v) + seq!['\n']
                    },
                    GetOutcome::NotFound => r matches Response::Text(s) && s@ == key_not_found_msg(
                        k@,
                    ),
                    GetOutcome::Mismatch => r matches Response::Text(s) && s@ == type_mismatch_msg(
                        k@,
                        spec_kind_name(kind),
                    ),
                }
            }
        }),
{
    let kind = tag_kind(t.as_str());
    if kind == Kind::F32 || kind == Kind::F64 {
        Response::Float(FloatRequest::GetFloat(kind == Kind::F64, k.clone()))
    } else {
        match map.get(k, kind) {
            Ok(v) => {
                match v {
                    Value::Bytes(bb) => {
                        let b = bb.clone();
                        proof {
                            assert(b@ =~= bb@);
                        }
                        Response::Bytes(b)
                    },
                    _ => {
                        match format_value(v) {
                            Some(mut s) => {
                                s.append("\n");
                                proof {
                                    reveal_strlit("\n");
                                    assert(s@ =~= format_text(*v) + seq!['\n']);
                                }
                                Response::Text(s)
                            },
                            None => {
                                proof {
                                    assert(false);
                                }
                                Response::Nothing
                            },
                        }
                    },
                }
            },
            Err(e) => Response::Text(e.to_string()),
        }
    }
}

/// Carries out a `DEL`: each key in turn is removed from the map and the
/// trie, and the count of removed records is the reply.
fn del_command(map: &mut SmirkMap, ks: &Vec<String>) -> (r: Response)
    requires
        old(map).wf(),
    ensures
        final(map).wf(),
        ({
            let views = views_of(ks@);
            &&& final(map).search_mode == old(map).search_mode
            &&& final(map).contents() == del_seq_map(old(map).contents(), views)
            &&& tries_del_seq(
                old(map).contents(),
                views,
                old(map).spec_trie(),
                final(map).spec_trie(),
            )
            &&& (r matches Response::Text(s) && s@ == dec_nat(
                del_seq_count(old(map).contents(), views) as nat,
            ))
        }),
{
    let ghost c0 = map.contents();
    let ghost t0 = map.spec_trie();
    let ghost views = views_of(ks@);
    let n = ks.len();
    let mut total: u64 = 0;
    let mut i: usize = 0;
    let ghost mut chain: Seq<Trie> = seq![map.spec_trie()];
    proof {
        assert(views.take(0) =~= Seq::<Seq<char>>::empty());
    }
    while i < n
        invariant
            map.wf(),
            0 <= i <= n,
            n == ks@.len(),
            views == views_of(ks@),
            total <= i,
            map.search_mode == old(map).search_mode,
            map.contents() == del_seq_map(c0, views.take(i as int)),
            total as int == del_seq_count(c0, views.take(i as int)),
            chain.len() == i + 1,
            chain[0] == t0,
            chain.last() == map.spec_trie(),
            forall|x: int|
                0 <= x < i ==> #[trigger] trie_del_step(
                    del_seq_map(c0, views.take(x)),
                    views[x],
                    chain[x],
                    chain[x + 1],
                ),
        decreases n - i,
    {
        let ghost tprev = map.spec_trie();
        let ghost cprev = map.contents();
        let d = map.del(&ks[i]);
        total = total + d;
        proof {
            chain = chain.push(map.spec_trie());
            assert(views.take(i as int + 1).drop_last() =~= views.take(i as int));
            assert(views.take(i as int + 1).last() == views[i as int]);
            assert(views[i as int] == ks@[i as int]@);
            assert(trie_del_step(
                del_seq_map(c0, views.take(i as int)),
                views[i as int],
                tprev,
                map.spec_trie(),
            ));
            assert(chain[i as int] == tprev);
        }
        i = i + 1;
    }
    proof {
        assert(views.take(n as int) =~= views);
        assert(trie_chain_ok(c0, views, chain));
        assert(tries_del_seq(c0, views, t0, map.spec_trie()));
    }
    Response::Text(u64_to_string(total))
}

/// Carries out a `KEYS` query in the store's active mode: glob or regex
/// filtering over the live keys, or next-character continuations from the
/// trie; no match and an invalid pattern each get their own reply.
fn keys_command(map: &SmirkMap, p: &String) -> (r: Response)
    requires
        map.wf(),
    ensures
        match map.search_mode {
            SmirkSearchMode::Glob => {
                let matched = glob_filter_spec(map.key_seq(), p@);
                &&& (!glob_ok(p@) ==> (r matches Response::Text(s) && s@ == invalid_pattern_msg(
                    p@,
                )))
                &&& (glob_ok(p@) && matched.len() == 0 ==> (r matches Response::Text(s) && s@
                    == no_matches_msg(p@)))
                &&& (glob_ok(p@) && matched.len() > 0 ==> (r matches Response::Text(s) && s@
                    == joined_keys(matched) + seq!['\n']))
            },
            SmirkSearchMode::Regex => {
                let matched = regex_filter_spec(map.key_seq(), p@);
                &&& (!regex_ok(p@) ==> (r matches Response::Text(s) && s@ == invalid_pattern_msg(
                    p@,
                )))
                &&& (regex_ok(p@) && matched.len() == 0 ==> (r matches Response::Text(s) && s@
                    == no_matches_msg(p@)))
                &&& (regex_ok(p@) && matched.len() > 0 ==> (r matches Response::Text(s) && s@
                    == joined_keys(matched) + seq!['\n']))
            },
            SmirkSearchMode::Trie => {
                let conts = continuations(map.spec_trie(), p@);
                &&& (conts.len() == 0 ==> (r matches Response::Text(s) && s@ == no_matches_msg(
                    p@,
                )))
                &&& (conts.len() > 0 ==> (r matches Response::Text(s) && s@ == lines_text(
                    conts.map_values(|c: char| seq![c]),
                )))
            },
        },
{
    match map.search_mode {
        SmirkSearchMode::Glob => {
            let ks = map.live_keys();
            proof {
                assert(views_of(ks@) =~= map.key_seq());
            }
            match glob_filter(&ks, p.as_str()) {
                None => Response::Text(quoted_msg("Invalid pattern \"", p.as_str(), "\".\n")),
                Some(matched) => {
                    if matched.len() == 0 {
                        Response::Text(
                            quoted_msg(
                                "No matches for key query \"",
                                p.as_str(),
                                "\" were found.\n",
                            ),
                        )
                    } else {
                        let mut s = join_keys(&matched);
                        s.append("\n");
                        proof {
                            reveal_strlit("\n");
                            assert(s@ =~= joined_keys(glob_filter_spec(map.key_seq(), p@))
                                + seq!['\n']);
                        }
                        Response::Text(s)
                    }
                },
            }
        },
        SmirkSearchMode::Regex => {
            let ks = map.live_keys();
            proof {
                assert(views_of(ks@) =~= map.key_seq());
            }
            match regex_filter(&ks, p.as_str()) {
                None => Response::Text(quoted_msg("Invalid pattern \"", p.as_str(), "\".\n")),
                Some(matched) => {
                    if matched.len() == 0 {
                        Response::Text(
                            quoted_msg(
                                "No matches for key query \"",
                                p.as_str(),
                                "\" were found.\n",
                            ),
                        )
                    } else {
                        let mut s = join_keys(&matched);
                        s.append("\n");
                        proof {
                            reveal_strlit("\n");
                            assert(s@ =~= joined_keys(regex_filter_spec(map.key_seq(), p@))
                                + seq!['\n']);
                        }
                        Response::Text(s)
                    }
                },
            }
        },
        SmirkSearchMode::Trie => {
            let conts = map.trie.get_keys_with_prefix(p.as_str());
            if conts.len() == 0 {
                Response::Text(
                    quoted_msg("No matches for key query \"", p.as_str(), "\" were found.\n"),
                )
            } else {
                let s = join_lines(&conts);
                proof {
                    assert(views_of(conts@) =~= continuations(map.spec_trie(), p@).map_values(
                        |c: char| seq![c],
                    ));
                }
                Response::Text(s)
            }
        },
    }
}

/// Carries out a `TTL` query: the remaining seconds, a never-expires
/// notice, or a does-not-exist notice.
fn ttl_get_command(map: &SmirkMap, k: &String) -> (r: Response)
    requires
        map.wf(),
    ensures
        !map.contents().contains_key(k@) ==> (r matches Response::Text(s) && s@ == not_exist_msg(
            k@,
        )),
        map.contents().contains_key(k@) ==> ({
            let rec = map.contents()[k@];
            &&& (rec.ttl is None ==> (r matches Response::Text(s) && s@ == not_expire_msg(k@)))
            &&& (rec.ttl matches Some(t) ==> (r matches Response::Text(s) && exists|m: u64|
                m <= t && s@ == dec_nat(m as nat) + seq!['\n']))
        }),
{
    match map.ttl(k) {
        Ok(opt) => {
            match opt {
                Some(m) => {
                    let mut s = u64_to_string(m);
                    s.append("\n");
                    proof {
                        reveal_strlit("\n");
                        assert(s@ =~= dec_nat(m as nat) + seq!['\n']);
                    }
                    Response::Text(s)
                },
                None => Response::Text(quoted_msg("Key \"", k.as_str(), "\" does not expire.\n")),
            }
        },
        Err(_) => Response::Text(quoted_msg("Key \"", k.as_str(), "\" does not exist.\n")),
    }
}

/// Carries out a `TYPE` query: the stored and declared kind names of the
/// record, or a key-not-found report.
fn type_command(map: &SmirkMap, k: &String) -> (r: Response)
    requires
        map.wf(),
    ensures
        map.contents().contains_key(k@) ==> ({
            let rec = map.contents()[k@];
            r matches Response::Text(s) && s@ == type_report_msg(
                rec.stored_type_name@,
                rec.desired_type_name@,
            )
        }),
        !map.contents().contains_key(k@) ==> (r matches Response::Text(s) && s@
            == key_not_found_msg(k@)),
{
    match map.get_record(k) {
        Ok(rec) => {
            let mut s = String::from_str("Stored-Type: ");
            s.append(rec.stored_type_name.as_str());
            s.append(", User-Type: ");
            s.append(rec.desired_type_name.as_str());
            s.append("\n");
            proof {
                assert(s@ =~= type_report_msg(rec.stored_type_name@, rec.desired_type_name@));
            }
            Response::Text(s)
        },
        Err(e) => Response::Text(e.to_string()),
    }
}

/// Carries out an `ADD`: numeric tags fold the stored values (integer
/// kinds checked, the big-integer kind exactly, floating kinds as work
/// items); any other tag is ignored.
fn add_command(map: &SmirkMap, t: &String, ks: &Vec<String>) -> (r: Response)
    requires
        map.wf(),
    ensures
        ({
            let kind = spec_tag_kind(t@);
            if kind == Kind::F32 || kind == Kind::F64 {
                r matches Response::Float(f) && f matches FloatRequest::AddFloat(w, fks) && w == (
                kind == Kind::F64) && fks@.len() == ks@.len() && (forall|i: int|
                    0 <= i < ks@.len() ==> (#[trigger] fks@[i])@ == ks@[i]@)
            } else if is_int_kind(kind) || kind == Kind::Big {
                match accum_spec(map.contents(), views_of(ks@), kind, 0) {
                    AccOutcome::Done(n) => r matches Response::Text(s) && s@
                        == crate::numtext::dec_int(n),
                    AccOutcome::BadKey(bk) => r matches Response::Text(s) && s@ == parse_error_msg(
                        bk,
                        Seq::empty(),
                        spec_kind_name(kind),
                    ),
                    AccOutcome::Overflow => r matches Response::Text(s) && s@ == add_overflow_msg(),
                }
            } else {
                r is Nothing
            }
        }),
{
    let kind = tag_kind(t.as_str());
    if kind == Kind::F32 || kind == Kind::F64 {
        Response::Float(FloatRequest::AddFloat(kind == Kind::F64, clone_keys(ks)))
    } else {
        let (signed, unsigned, big) = kind_class(kind);
        if signed || unsigned || big {
            match map.add(ks, kind) {
                Ok(val) => {
                    match format_value(&val) {
                        Some(s) => Response::Text(s),
                        None => {
                            proof {
                                assert(false);
                            }
                            Response::Nothing
                        },
                    }
                },
                Err(e) => Response::Text(e.to_string()),
            }
        } else {
            Response::Nothing
        }
    }
}

/// Carries out one decoded command against the store and renders the
/// response the client reads.  Floating-point commands come back as work
/// items; everything else is fully handled here: the store is updated as
/// the command says and the response text is exactly the rendering of the
/// outcome.
pub fn process_command(map: &mut SmirkMap, command: &Command) -> (r: Response)
    requires
        old(map).wf(),
    ensures
        final(map).wf(),
        match *command {
            Command::SetValue(t, k, v) => {
                let kind = spec_tag_kind(t@);
                if kind == Kind::F32 || kind == Kind::F64 {
                    &&& (r matches Response::Float(f) && f matches FloatRequest::SetFloat(w, fk, raw, d)
                        && w == (kind == Kind::F64) && fk@ == k@ && raw@ == v@ && d@ == t@)
                    &&& *final(map) == *old(map)
                } else {
                    &&& final(map).search_mode == old(map).search_mode
                    &&& (parse_ok(kind, lossy_utf8(v@)) ==> {
                        &&& set_effect(old(map).contents(), final(map).contents(), k@, v@, kind, t@)
                        &&& spec_inserted(old(map).spec_trie(), k@, final(map).spec_trie())
                        &&& (r matches Response::Text(s) && s@ == set_key_msg(
                            k@,
                            spec_kind_name(kind),
                            t@,
                        ))
                    })
                    &&& (!parse_ok(kind, lossy_utf8(v@)) ==> {
                        &&& *final(map) == *old(map)
                        &&& (r matches Response::Text(s) && s@ == parse_error_msg(
                            k@,
                            lossy_utf8(v@),
                            spec_kind_name(kind),
                        ))
                    })
                }
            },
            Command::Get(t, k) => {
                let kind = spec_tag_kind(t@);
                &&& *final(map) == *old(map)
                &&& if kind == Kind::F32 || kind == Kind::F64 {
                    r matches Response::Float(f) && f matches FloatRequest::GetFloat(w, fk) && w
                        == (kind == Kind::F64) && fk@ == k@
                } else {
                    match get_spec(old(map).contents(), k@, kind) {
                        GetOutcome::Found(v) => if kind == Kind::Bytes {
                            r matches Response::Bytes(b) && v matches Value::Bytes(bb) && b@ == bb@
                        } else {
                            r matches Response::Text(s) && s@ == format_text(v) + seq!['\n']
                        },
                        GetOutcome::NotFound => r matches Response::Text(s) && s@
                            == key_not_found_msg(k@),
                        GetOutcome::Mismatch => r matches Response::Text(s) && s@
                            == type_mismatch_msg(k@, spec_kind_name(kind)),
                    }
                }
            },
            Command::Del(ks) => {
                let views = views_of(ks@);
                &&& final(map).search_mode == old(map).search_mode
                &&& final(map).contents() == del_seq_map(old(map).contents(), views)
                &&& tries_del_seq(
                    old(map).contents(),
                    views,
                    old(map).spec_trie(),
                    final(map).spec_trie(),
                )
                &&& (r matches Response::Text(s) && s@ == dec_nat(
                    del_seq_count(old(map).contents(), views) as nat,
                ))
            },
            Command::Keys(p) => {
                &&& *final(map) == *old(map)
                &&& match old(map).search_mode {
                    SmirkSearchMode::Glob => {
                        let matched = glob_filter_spec(old(map).key_seq(), p@);
                        &&& (!glob_ok(p@) ==> (r matches Response::Text(s) && s@
                            == invalid_pattern_msg(p@)))
                        &&& (glob_ok(p@) && matched.len() == 0 ==> (r matches Response::Text(s)
                            && s@ == no_matches_msg(p@)))
                        &&& (glob_ok(p@) && matched.len() > 0 ==> (r matches Response::Text(s)
                            && s@ == joined_keys(matched) + seq!['\n']))
                    },
                    SmirkSearchMode::Regex => {
                        let matched = regex_filter_spec(old(map).key_seq(), p@);
                        &&& (!regex_ok(p@) ==> (r matches Response::Text(s) && s@
                            == invalid_pattern_msg(p@)))
                        &&& (regex_ok(p@) && matched.len() == 0 ==> (r matches Response::Text(s)
                            && s@ == no_matches_msg(p@)))
                        &&& (regex_ok(p@) && matched.len() > 0 ==> (r matches Response::Text(s)
                            && s@ == joined_keys(matched) + seq!['\n']))
                    },
                    SmirkSearchMode::Trie => {
                        let conts = continuations(old(map).spec_trie(), p@);
                        &&& (conts.len() == 0 ==> (r matches Response::Text(s) && s@
                            == no_matches_msg(p@)))
                        &&& (conts.len() > 0 ==> (r matches Response::Text(s) && s@ == lines_text(
                            conts.map_values(|c: char| seq![c]),
                        )))
                    },
                }
            },
            Command::Mode(m) => {
                &&& r is Nothing
                &&& final(map).search_mode == m
                &&& final(map).entries == old(map).entries
                &&& final(map).trie == old(map).trie
            },
            Command::TtlGet(k) => {
                &&& *final(map) == *old(map)
                &&& (!old(map).contents().contains_key(k@) ==> (r matches Response::Text(s) && s@
                    == not_exist_msg(k@)))
                &&& (old(map).contents().contains_key(k@) ==> {
                    let rec = old(map).contents()[k@];
                    &&& (rec.ttl is None ==> (r matches Response::Text(s) && s@ == not_expire_msg(
                        k@,
                    )))
                    &&& (rec.ttl matches Some(t) ==> (r matches Response::Text(s) && exists|m: u64|
                        m <= t && s@ == dec_nat(m as nat) + seq!['\n']))
                })
            },
            Command::TtlSet(k, o) => {
                &&& r is Nothing
                &&& final(map).search_mode == old(map).search_mode
                &&& final(map).spec_trie() == old(map).spec_trie()
                &&& final(map).key_seq() == old(map).key_seq()
                &&& (!old(map).contents().contains_key(k@) ==> *final(map) == *old(map))
                &&& (old(map).contents().contains_key(k@) ==> {
                    let r0 = old(map).contents()[k@];
                    &&& final(map).contents().contains_key(k@)
                    &&& final(map).contents()[k@].ttl == o
                    &&& final(map).contents()[k@].value == r0.value
                    &&& final(map).contents()[k@].ttl_start == r0.ttl_start
                    &&& final(map).contents().remove(k@) == old(map).contents().remove(k@)
                })
            },
            Command::Exists(k) => {
                &&& *final(map) == *old(map)
                &&& (r matches Response::Text(s) && s@ == (if old(map).contents().contains_key(k@) {
                    "true\n"@
                } else {
                    "false\n"@
                }))
            },
            Command::Type(k) => {
                &&& *final(map) == *old(map)
                &&& (old(map).contents().contains_key(k@) ==> {
                    let rec = old(map).contents()[k@];
                    r matches Response::Text(s) && s@ == type_report_msg(
                        rec.stored_type_name@,
                        rec.desired_type_name@,
                    )
                })
                &&& (!old(map).contents().contains_key(k@) ==> (r matches Response::Text(s) && s@
                    == key_not_found_msg(k@)))
            },
            Command::Add(t, ks) => {
                let kind = spec_tag_kind(t@);
                &&& *final(map) == *old(map)
                &&& if kind == Kind::F32 || kind == Kind::F64 {
                    r matches Response::Float(f) && f matches FloatRequest::AddFloat(w, fks) && w
                        == (kind == Kind::F64) && fks@.len() == ks@.len() && (forall|i: int|
                        0 <= i < ks@.len() ==> (#[trigger] fks@[i])@ == ks@[i]@)
                } else if is_int_kind(kind) || kind == Kind::Big {
                    match accum_spec(old(map).contents(), views_of(ks@), kind, 0) {
                        AccOutcome::Done(n) => r matches Response::Text(s) && s@
                            == crate::numtext::dec_int(n),
                        AccOutcome::BadKey(bk) => r matches Response::Text(s) && s@
                            == parse_error_msg(bk, Seq::empty(), spec_kind_name(kind)),
                        AccOutcome::Overflow => r matches Response::Text(s) && s@
                            == add_overflow_msg(),
                    }
                } else {
                    r is Nothing
                }
            },
            Command::Quit => {
                &&& *final(map) == *old(map)
                &&& (r matches Response::Quit(s) && s@ == bye_msg())
            },
            Command::Save => {
                &&& *final(map) == *old(map)
                &&& (r matches Response::Text(s) && s@ == save_msg())
            },
        },
{
    match command {
        Command::SetValue(t, k, v) => set_command(map, t, k, v),
        Command::Get(t, k) => get_command(map, t, k),
        Command::Del(ks) => del_command(map, ks),
        Command::Keys(p) => keys_command(map, p),
        Command::Mode(m) => {
            map.set_search_mode(*m);
            Response::Nothing
        },
        Command::TtlSet(k, o) => {
            map.set_ttl(k, o);
            Response::Nothing
        },
        Command::TtlGet(k) => ttl_get_command(map, k),
        Command::Exists(k) => {
            if map.key_exists(k) {
                Response::Text(String::from_str("true\n"))
            } else {
                Response::Text(String::from_str("false\n"))
            }
        },
        Command::Type(k) => type_command(map, k),
        Command::Add(t, ks) => add_command(map, t, ks),
        Command::Quit => Response::Quit(String::from_str("Bye.\n")),
        Command::Save => Response::Text(String::from_str("SAVE is not supported.\n")),
    }
}

/// Clones a key list.
fn clone_keys(ks: &Vec<String>) -> (r: Vec<String>)
    ensures
        r@.len() == ks@.len(),
        forall|i: int| 0 <= i < ks@.len() ==> (#[trigger] r@[i])@ == ks@[i]@,
{
    let n = ks.len();
    let mut out: Vec<String> = Vec::new();
    let mut i: usize = 0;
    while i < n
        invariant
            0 <= i <= n,
            n == ks@.len(),
            out@.len() == i,
            forall|x: int| 0 <= x < i ==> (#[trigger] out@[x])@ == ks@[x]@,
        decreases n - i,
    {
        out.push(ks[i].clone());
        i = i + 1;
    }
    out
}

} // verus!
