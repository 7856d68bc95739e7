//! The wire envelope: a message with source, destination and a typed body
//! whose unknown fields are carried through unchanged.

use vstd::map::*;
use vstd::prelude::*;

use crate::assoc::{
    entries_map, field_of, keys_distinct, lemma_entries_map_at, lemma_entries_map_dom, string_is,
};
use crate::error::NodeError;
use crate::json::{
    clone_value, obj_of, object_value, str_of, string_value, u64_of, u64_value, value_as_u64,
    value_entries, value_into_string,
};

verus! {

/// One envelope on the wire: who sent it, whom it is for, and the body.
/// A reply is always a new `Message`, never a mutation of the request.
#[derive(Debug, Clone, PartialEq)]
pub struct Message {
    /// Identifier of the node or client sending the message.
    pub src: String,
    /// Identifier of the intended recipient.
    pub dest: String,
    /// The typed payload.
    pub body: Body,
}

/// The payload of an envelope: a mandatory type tag, optional correlation
/// ids, and an open mapping of type-specific fields.
#[derive(Debug, Clone, PartialEq)]
pub struct Body {
    /// The message kind, e.g. `init` or `echo`. Never empty for a body this
    /// system produces.
    pub typ: String,
    /// Message identifier unique to the sender; absent rather than zero when
    /// the sender did not set one.
    pub msg_id: Option<u64>,
    /// For a reply, the `msg_id` of the request it answers.
    pub in_reply_to: Option<u64>,
    /// The remaining body fields, preserved verbatim; keys are distinct and
    /// none of them is a fixed field name.
    pub extra: Vec<(String, serde_json::Value)>,
}

/// The body field names that are not part of the open mapping.
pub open spec fn is_fixed_body_key(k: Seq<char>) -> bool {
    k == "type"@ || k == "msg_id"@ || k == "in_reply_to"@
}

/// A map of body entries with the fixed fields taken out: what the open
/// mapping of a parsed body holds.
pub open spec fn strip_fixed(bm: Map<Seq<char>, serde_json::Value>) -> Map<
    Seq<char>,
    serde_json::Value,
> {
    bm.remove("type"@).remove("msg_id"@).remove("in_reply_to"@)
}

impl Body {
    /// The open mapping holds each key once and no fixed field name.
    pub open spec fn wf(self) -> bool {
        &&& keys_distinct(self.extra@)
        &&& forall|i: int| 0 <= i < self.extra@.len() ==> !is_fixed_body_key(self.extra@[i].0@)
    }

    /// The open mapping as a map, the order of the entries forgotten.
    pub open spec fn extra_map(self) -> Map<Seq<char>, serde_json::Value> {
        entries_map(self.extra@)
    }
}

impl Message {
    /// A message is well formed when its body is.
    pub open spec fn wf(self) -> bool {
        self.body.wf()
    }
}

/// A JSON value holds a parsable envelope: an object with `src` and `dest`
/// strings and a `body` object whose `type` is a string and whose `msg_id`
/// and `in_reply_to`, where present, are unsigned integers.
pub open spec fn parse_ok(v: serde_json::Value) -> bool {
    &&& obj_of(v) is Some
    &&& {
        let t = obj_of(v)->Some_0;
        &&& t.contains_key("src"@) && str_of(t["src"@]) is Some
        &&& t.contains_key("dest"@) && str_of(t["dest"@]) is Some
        &&& t.contains_key("body"@) && body_parse_ok(t["body"@])
    }
}

/// The body part of `parse_ok`.
pub open spec fn body_parse_ok(bv: serde_json::Value) -> bool {
    &&& obj_of(bv) is Some
    &&& {
        let bm = obj_of(bv)->Some_0;
        &&& bm.contains_key("type"@) && str_of(bm["type"@]) is Some
        &&& (bm.contains_key("msg_id"@) ==> u64_of(bm["msg_id"@]) is Some)
        &&& (bm.contains_key("in_reply_to"@) ==> u64_of(bm["in_reply_to"@]) is Some)
    }
}

/// What parsing a value yields: each fixed field read from its place, every
/// other body field preserved verbatim in the open mapping. Unknown
/// top-level fields are ignored.
pub open spec fn parses_to(v: serde_json::Value, m: Message) -> bool {
    &&& parse_ok(v)
    &&& {
        let t = obj_of(v)->Some_0;
        let bm = obj_of(t["body"@])->Some_0;
        &&& str_of(t["src"@]) == Some(m.src@)
        &&& str_of(t["dest"@]) == Some(m.dest@)
        &&& str_of(bm["type"@]) == Some(m.body.typ@)
        &&& m.body.msg_id == (if bm.contains_key("msg_id"@) {
            u64_of(bm["msg_id"@])
        } else {
            None::<u64>
        })
        &&& m.body.in_reply_to == (if bm.contains_key("in_reply_to"@) {
            u64_of(bm["in_reply_to"@])
        } else {
            None::<u64>
        })
        &&& m.body.wf()
        &&& m.body.extra_map() == strip_fixed(bm)
    }
}

/// The top-level field names are three different strings.
proof fn lemma_top_keys_differ()
    ensures
        "src"@ != "dest"@,
        "src"@ != "body"@,
        "dest"@ != "body"@,
{
    reveal_strlit("src");
    reveal_strlit("dest");
    reveal_strlit("body");
    assert("src"@.len() == 3 && "dest"@.len() == 4 && "body"@.len() == 4);
    assert("dest"@[0] == 'd' && "body"@[0] == 'b');
}

/// The fixed body field names are three different strings.
proof fn lemma_body_keys_differ()
    ensures
        "type"@ != "msg_id"@,
        "type"@ != "in_reply_to"@,
        "msg_id"@ != "in_reply_to"@,
{
    reveal_strlit("type");
    reveal_strlit("msg_id");
    reveal_strlit("in_reply_to");
    assert("type"@.len() == 4 && "msg_id"@.len() == 6 && "in_reply_to"@.len() == 11);
}

/// What serializing a body yields: an object holding `type` (unless the tag
/// is empty), `msg_id` and `in_reply_to` where present, and every open
/// mapping entry verbatim, nothing else.
pub open spec fn body_serialized_as(b: Body, bv: serde_json::Value) -> bool {
    &&& obj_of(bv) is Some
    &&& {
        let bm = obj_of(bv)->Some_0;
        &&& (b.typ@.len() > 0 ==> bm.contains_key("type"@) && str_of(bm["type"@]) == Some(
            b.typ@,
        ))
        &&& (b.typ@.len() == 0 ==> !bm.contains_key("type"@))
        &&& (match b.msg_id {
            Some(n) => bm.contains_key("msg_id"@) && u64_of(bm["msg_id"@]) == Some(n),
            None => !bm.contains_key("msg_id"@),
        })
        &&& (match b.in_reply_to {
            Some(n) => bm.contains_key("in_reply_to"@) && u64_of(bm["in_reply_to"@]) == Some(
                n,
            ),
            None => !bm.contains_key("in_reply_to"@),
        })
        &&& strip_fixed(bm) == b.extra_map()
    }
}

/// What serializing a message yields: an object of exactly `src`, `dest` and
/// `body`, the body serialized as `body_serialized_as` says.
pub open spec fn serialized_as(m: Message, v: serde_json::Value) -> bool {
    &&& obj_of(v) is Some
    &&& {
        let t = obj_of(v)->Some_0;
        &&& t.dom() == set!["src"@, "dest"@, "body"@]
        &&& t.contains_key("src"@) && str_of(t["src"@]) == Some(m.src@)
        &&& t.contains_key("dest"@) && str_of(t["dest"@]) == Some(m.dest@)
        &&& t.contains_key("body"@) && body_serialized_as(m.body, t["body"@])
    }
}

impl Message {
    /// Parses a JSON value into an envelope. Fails with `MalformedEnvelope`
    /// exactly when the value is not the shape `parse_ok` describes.
    pub fn parse(v: serde_json::Value) -> (r: Result<Message, NodeError>)
        ensures
            match r {
                Ok(m) => parses_to(v, m),
                Err(e) => e == NodeError::MalformedEnvelope && !parse_ok(v),
            },
    {
        let entries = match value_entries(v) {
            Ok(es) => es,
            Err(_) => {
                return Err(NodeError::MalformedEnvelope);
            },
        };
        let ghost t = obj_of(v)->Some_0;
        let mut src: Option<String> = None;
        let mut dest: Option<String> = None;
        let mut body_v: Option<serde_json::Value> = None;
        let n = entries.len();
        let mut i: usize = 0;
        while i < n
            invariant
                n == entries@.len(),
                i <= n,
                keys_distinct(entries@),
                obj_of(v) == Some(t),
                t == entries_map(entries@),
                (match src {
                    Some(s) => (field_of(entries_map(entries@.take(i as int)), "src"@) matches Some(
                        w,
                    ) && str_of(w) == Some(s@)),
                    None => field_of(entries_map(entries@.take(i as int)), "src"@) is None,
                }),
                (match dest {
                    Some(s) => (field_of(entries_map(entries@.take(i as int)), "dest"@) matches Some(
                        w,
                    ) && str_of(w) == Some(s@)),
                    None => field_of(entries_map(entries@.take(i as int)), "dest"@) is None,
                }),
                (match body_v {
                    Some(b) => field_of(entries_map(entries@.take(i as int)), "body"@) == Some(b),
                    None => field_of(entries_map(entries@.take(i as int)), "body"@) is None,
                }),
            decreases n - i,
        {
            let pair = &entries[i];
            proof {
                lemma_top_keys_differ();
                lemma_entries_map_at(entries@, i as int);
                assert(entries@.take(i as int + 1).drop_last() =~= entries@.take(i as int));
                assert(entries@.take(i as int + 1).last() == entries@[i as int]);
            }
            if string_is(&pair.0, "src") {
                match value_into_string(clone_value(&pair.1)) {
                    Ok(s) => {
                        src = Some(s);
                    },
                    Err(_) => {
                        return Err(NodeError::MalformedEnvelope);
                    },
                }
            } else if string_is(&pair.0, "dest") {
                match value_into_string(clone_value(&pair.1)) {
                    Ok(s) => {
                        dest = Some(s);
                    },
                    Err(_) => {
                        return Err(NodeError::MalformedEnvelope);
                    },
                }
            } else if string_is(&pair.0, "body") {
                body_v = Some(clone_value(&pair.1));
            }
            i += 1;
        }
        proof {
            assert(entries@.take(n as int) =~= entries@);
        }
        let src = match src {
            Some(s) => s,
            None => {
                return Err(NodeError::MalformedEnvelope);
            },
        };
        let dest = match dest {
            Some(s) => s,
            None => {
                return Err(NodeError::MalformedEnvelope);
            },
        };
        let bv = match body_v {
            Some(b) => b,
            None => {
                return Err(NodeError::MalformedEnvelope);
            },
        };
        proof {
            assert(t.contains_key("body"@) && t["body"@] == bv);
        }
        let ghost bm = obj_of(bv)->Some_0;
        let bentries = match value_entries(bv) {
            Ok(es) => es,
            Err(_) => {
                return Err(NodeError::MalformedEnvelope);
            },
        };
        let mut typ: Option<String> = None;
        let mut msg_id: Option<u64> = None;
        let mut in_reply_to: Option<u64> = None;
        let mut extra: Vec<(String, serde_json::Value)> = Vec::new();
        let bn = bentries.len();
        let mut j: usize = 0;
        proof {
            assert(entries_map(extra@) =~= strip_fixed(entries_map(bentries@.take(0))));
        }
        while j < bn
            invariant
                bn == bentries@.len(),
                j <= bn,
                keys_distinct(bentries@),
                obj_of(v) == Some(t),
                t.contains_key("body"@) && t["body"@] == bv,
                obj_of(bv) == Some(bm),
                bm == entries_map(bentries@),
                (match typ {
                    Some(s) => (field_of(entries_map(bentries@.take(j as int)), "type"@) matches Some(
                        w,
                    ) && str_of(w) == Some(s@)),
                    None => field_of(entries_map(bentries@.take(j as int)), "type"@) is None,
                }),
                (match msg_id {
                    Some(x) => (field_of(entries_map(bentries@.take(j as int)), "msg_id"@) matches Some(
                        w,
                    ) && u64_of(w) == Some(x)),
                    None => field_of(entries_map(bentries@.take(j as int)), "msg_id"@) is None,
                }),
                (match in_reply_to {
                    Some(x) => (field_of(entries_map(bentries@.take(j as int)), "in_reply_to"@) matches Some(
                        w,
                    ) && u64_of(w) == Some(x)),
                    None => field_of(entries_map(bentries@.take(j as int)), "in_reply_to"@) is None,
                }),
                keys_distinct(extra@),
                forall|p: int| 0 <= p < extra@.len() ==> !is_fixed_body_key(extra@[p].0@),
                entries_map(extra@) == strip_fixed(entries_map(bentries@.take(j as int))),
            decreases bn - j,
        {
            let pair = &bentries[j];
            proof {
                lemma_body_keys_differ();
                lemma_entries_map_at(bentries@, j as int);
                assert(bentries@.take(j as int + 1).drop_last() =~= bentries@.take(j as int));
                assert(bentries@.take(j as int + 1).last() == bentries@[j as int]);
            }
            let ghost m_j = entries_map(bentries@.take(j as int));
            let ghost m_j1 = entries_map(bentries@.take(j as int + 1));
            if string_is(&pair.0, "type") {
                match value_into_string(clone_value(&pair.1)) {
                    Ok(s) => {
                        typ = Some(s);
                    },
                    Err(_) => {
                        return Err(NodeError::MalformedEnvelope);
                    },
                }
                proof {
                    assert(strip_fixed(m_j1) =~= strip_fixed(m_j));
                }
            } else if string_is(&pair.0, "msg_id") {
                match value_as_u64(&pair.1) {
                    Some(x) => {
                        msg_id = Some(x);
                    },
                    None => {
                        return Err(NodeError::MalformedEnvelope);
                    },
                }
                proof {
                    assert(strip_fixed(m_j1) =~= strip_fixed(m_j));
                }
            } else if string_is(&pair.0, "in_reply_to") {
                match value_as_u64(&pair.1) {
                    Some(x) => {
                        in_reply_to = Some(x);
                    },
                    None => {
                        return Err(NodeError::MalformedEnvelope);
                    },
                }
                proof {
                    assert(strip_fixed(m_j1) =~= strip_fixed(m_j));
                }
            } else {
                let k = pair.0.clone();
                let val = clone_value(&pair.1);
                proof {
                    assert forall|p: int| 0 <= p < extra@.len() implies extra@[p].0@ != k@ by {
                        if extra@[p].0@ == k@ {
                            lemma_entries_map_at(extra@, p);
                            lemma_entries_map_dom(bentries@.take(j as int), k@);
                            let q = choose|q: int|
                                0 <= q < bentries@.take(j as int).len() && bentries@.take(
                                    j as int,
                                )[q].0@ == k@;
                            assert(bentries@[q].0@ == bentries@[j as int].0@);
                        }
                    }
                }
                let ghost old_extra = extra@;
                extra.push((k, val));
                proof {
                    assert(!is_fixed_body_key(k@));
                    assert(extra@.drop_last() =~= old_extra);
                    assert(entries_map(extra@) == entries_map(old_extra).insert(k@, val));
                    assert(strip_fixed(m_j1) =~= entries_map(old_extra).insert(k@, val));
                }
            }
            j += 1;
        }
        proof {
            assert(bentries@.take(bn as int) =~= bentries@);
        }
        let typ = match typ {
            Some(s) => s,
            None => {
                return Err(NodeError::MalformedEnvelope);
            },
        };
        let body = Body { typ, msg_id, in_reply_to, extra };
        Ok(Message { src, dest, body })
    }

    /// Serializes the envelope into a JSON value, the inverse of `parse`:
    /// the fixed fields at their places, the open mapping merged beside them.
    pub fn to_value(&self) -> (v: serde_json::Value)
        requires
            self.wf(),
        ensures
            serialized_as(*self, v),
    {
        proof {
            lemma_top_keys_differ();
            lemma_body_keys_differ();
        }
        let ghost e_seq = self.body.extra@;
        let mut bes: Vec<(String, serde_json::Value)> = Vec::new();
        let elen = self.body.extra.len();
        let mut j: usize = 0;
        while j < elen
            invariant
                elen == self.body.extra@.len(),
                j <= elen,
                bes@ == self.body.extra@.take(j as int),
            decreases elen - j,
        {
            let pair = &self.body.extra[j];
            bes.push((pair.0.clone(), clone_value(&pair.1)));
            proof {
                assert(bes@ =~= self.body.extra@.take(j as int + 1));
            }
            j += 1;
        }
        proof {
            assert(e_seq.take(elen as int) =~= e_seq);
        }
        let has_typ = !self.body.typ.as_str().is_empty();
        if has_typ {
            let ghost prev = bes@;
            let tv = string_value(self.body.typ.clone());
            bes.push(("type".to_owned(), tv));
            proof {
                assert(bes@.drop_last() =~= prev);
                assert(entries_map(bes@) == entries_map(prev).insert("type"@, tv));
            }
        }
        match self.body.msg_id {
            Some(n) => {
                let ghost prev = bes@;
                let nv = u64_value(n);
                bes.push(("msg_id".to_owned(), nv));
                proof {
                    assert(bes@.drop_last() =~= prev);
                    assert(entries_map(bes@) == entries_map(prev).insert("msg_id"@, nv));
                }
            },
            None => {},
        }
        match self.body.in_reply_to {
            Some(n) => {
                let ghost prev = bes@;
                let nv = u64_value(n);
                bes.push(("in_reply_to".to_owned(), nv));
                proof {
                    assert(bes@.drop_last() =~= prev);
                    assert(entries_map(bes@) == entries_map(prev).insert("in_reply_to"@, nv));
                }
            },
            None => {},
        }
        proof {
            assert(forall|p: int| 0 <= p < elen ==> bes@[p] == e_seq[p]);
            assert(forall|p: int|
                elen <= p < bes@.len() ==> is_fixed_body_key(#[trigger] bes@[p].0@));
            assert(keys_distinct(bes@));
            assert_maps_equal!(strip_fixed(entries_map(bes@)), self.body.extra_map(), k => {
                lemma_entries_map_dom(bes@, k);
                lemma_entries_map_dom(e_seq, k);
                if entries_map(bes@).contains_key(k) && !is_fixed_body_key(k) {
                    let p = choose|p: int| 0 <= p < bes@.len() && bes@[p].0@ == k;
                    lemma_entries_map_at(bes@, p);
                    lemma_entries_map_at(e_seq, p);
                }
                if self.body.extra_map().contains_key(k) {
                    let q = choose|q: int| 0 <= q < e_seq.len() && e_seq[q].0@ == k;
                    lemma_entries_map_at(e_seq, q);
                    lemma_entries_map_at(bes@, q);
                }
            });
            if has_typ {
                lemma_entries_map_dom(bes@, "type"@);
            } else {
                lemma_entries_map_dom(bes@, "type"@);
                assert(!entries_map(bes@).contains_key("type"@));
            }
            if self.body.msg_id is None {
                lemma_entries_map_dom(bes@, "msg_id"@);
            }
            if self.body.in_reply_to is None {
                lemma_entries_map_dom(bes@, "in_reply_to"@);
            }
        }
        let bv = object_value(bes);
        let mut tes: Vec<(String, serde_json::Value)> = Vec::new();
        let sv = string_value(self.src.clone());
        tes.push(("src".to_owned(), sv));
        let ghost prev1 = tes@;
        let dv = string_value(self.dest.clone());
        tes.push(("dest".to_owned(), dv));
        let ghost prev2 = tes@;
        tes.push(("body".to_owned(), bv));
        proof {
            assert(prev1.drop_last() =~= Seq::<(String, serde_json::Value)>::empty());
            assert(prev2.drop_last() =~= prev1);
            assert(tes@.drop_last() =~= prev2);
            assert(entries_map(Seq::<(String, serde_json::Value)>::empty()) == Map::<
                Seq<char>,
                serde_json::Value,
            >::empty());
            assert(entries_map(prev1) == Map::<Seq<char>, serde_json::Value>::empty().insert(
                "src"@,
                sv,
            ));
            assert(entries_map(prev2) == entries_map(prev1).insert("dest"@, dv));
            assert(entries_map(tes@) == entries_map(prev2).insert("body"@, bv));
            assert(keys_distinct(tes@));
            assert(entries_map(tes@).dom() =~= set!["src"@, "dest"@, "body"@]);
        }
        object_value(tes)
    }
}

/// A well-formed envelope with a non-empty type tag, once serialized,
/// parses: serialization never produces a value the parser refuses.
pub proof fn lemma_serialized_parses(m: Message, v: serde_json::Value)
    requires
        m.wf(),
        m.body.typ@.len() > 0,
        serialized_as(m, v),
    ensures
        parse_ok(v),
{
}

/// Parsing a serialized envelope hands back its fields unchanged; in
/// particular every open-mapping entry survives the round trip, content
/// equal, order not guaranteed.
pub proof fn lemma_parse_round_trip(m: Message, v: serde_json::Value, m2: Message)
    requires
        m.wf(),
        m.body.typ@.len() > 0,
        serialized_as(m, v),
        parses_to(v, m2),
    ensures
        m2.src@ == m.src@,
        m2.dest@ == m.dest@,
        m2.body.typ@ == m.body.typ@,
        m2.body.msg_id == m.body.msg_id,
        m2.body.in_reply_to == m.body.in_reply_to,
        m2.body.extra_map() == m.body.extra_map(),
{
}

} // verus!
