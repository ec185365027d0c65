//! Key addressing: building and parsing the hierarchical routing keys used
//! for pub/sub and request/reply interactions.
//!
//! A pub/sub key is `{base_path}/@v0/{entity_id}/pubsub/{subject}/{source_id}`
//! with an optional `/@target/{target_id}` suffix; a request/reply key is
//! `{base_path}/@v0/{entity_id}/@rpc/{procedure}/{responder_id}`. The
//! version segment is always the literal token `@v0`, and the discriminator
//! segment at position 3 picks the parse mode. A source or responder id may
//! itself contain `/`-separated sub-segments; parsing rejoins all trailing
//! segments. A source id that itself contains the literal `/@target/` text
//! is not distinguished from a target suffix; keys stay textual and the
//! ambiguity is left to callers.

use vstd::prelude::*;
use vstd::string::StrSliceExecFns;
use vstd::string::StringExecFns;
use crate::error::Error;

verus! {

/// Split `s` at every occurrence of `sep`. Always returns at least one
/// segment; a separator at either end or two in a row yield empty
/// segments, as the textual format demands.
pub open spec fn spec_split(s: Seq<char>, sep: char) -> Seq<Seq<char>>
    decreases s.len(),
{
    if s.len() == 0 {
        seq![Seq::empty()]
    } else if s[0] == sep {
        seq![Seq::<char>::empty()] + spec_split(s.drop_first(), sep)
    } else {
        let r = spec_split(s.drop_first(), sep);
        seq![seq![s[0]] + r[0]] + r.drop_first()
    }
}

/// Join segments with `sep` between each pair.
pub open spec fn spec_join(parts: Seq<Seq<char>>, sep: char) -> Seq<char>
    decreases parts.len(),
{
    if parts.len() == 0 {
        Seq::empty()
    } else if parts.len() == 1 {
        parts[0]
    } else {
        parts[0] + seq![sep] + spec_join(parts.drop_first(), sep)
    }
}

pub proof fn lemma_split_len(s: Seq<char>, sep: char)
    ensures
        spec_split(s, sep).len() >= 1,
    decreases s.len(),
{
    if s.len() > 0 {
        lemma_split_len(s.drop_first(), sep);
    }
}

/// Splitting distributes over an explicit separator.
pub proof fn lemma_split_append(s1: Seq<char>, s2: Seq<char>, sep: char)
    ensures
        spec_split(s1 + seq![sep] + s2, sep) == spec_split(s1, sep) + spec_split(s2, sep),
    decreases s1.len(),
{
    let s = s1 + seq![sep] + s2;
    if s1.len() == 0 {
        assert(s =~= seq![sep] + s2);
        assert(s[0] == sep);
        assert(s.drop_first() =~= s2);
        assert(spec_split(s1, sep) =~= seq![Seq::<char>::empty()]);
        assert(spec_split(s, sep) =~= spec_split(s1, sep) + spec_split(s2, sep));
    } else {
        let c = s1[0];
        assert(s[0] == c);
        assert(s.drop_first() =~= s1.drop_first() + seq![sep] + s2);
        lemma_split_append(s1.drop_first(), s2, sep);
        lemma_split_len(s1.drop_first(), sep);
        lemma_split_len(s2, sep);
        let rtail = spec_split(s1.drop_first(), sep);
        let r2 = spec_split(s2, sep);
        if c == sep {
            assert(spec_split(s, sep) =~= seq![Seq::<char>::empty()] + (rtail + r2));
            assert(spec_split(s1, sep) =~= seq![Seq::<char>::empty()] + rtail);
            assert(spec_split(s, sep) =~= spec_split(s1, sep) + r2);
        } else {
            let r = rtail + r2;
            assert(r[0] == rtail[0]);
            assert(r.drop_first() =~= rtail.drop_first() + r2);
            assert(spec_split(s, sep) =~= seq![seq![c] + rtail[0]] + (rtail.drop_first() + r2));
            assert(spec_split(s1, sep) =~= seq![seq![c] + rtail[0]] + rtail.drop_first());
            assert(spec_split(s, sep) =~= spec_split(s1, sep) + r2);
        }
    }
}

/// A separator-free text splits into itself alone.
pub proof fn lemma_split_whole(s: Seq<char>, sep: char)
    requires
        !s.contains(sep),
    ensures
        spec_split(s, sep) == seq![s],
    decreases s.len(),
{
    if s.len() == 0 {
        assert(s =~= Seq::<char>::empty());
        assert(spec_split(s, sep) == seq![Seq::<char>::empty()]);
        assert(seq![Seq::<char>::empty()] == seq![s]);
    } else {
        assert(s[0] != sep);
        assert(!s.drop_first().contains(sep)) by {
            if s.drop_first().contains(sep) {
                let i = choose|i: int|
                    0 <= i < s.drop_first().len() && s.drop_first()[i] == sep;
                assert(s[i + 1] == sep);
            }
        };
        lemma_split_whole(s.drop_first(), sep);
        assert(spec_split(s, sep) =~= seq![seq![s[0]] + s.drop_first()] + Seq::<
            Seq<char>,
        >::empty());
        assert(seq![s[0]] + s.drop_first() =~= s);
        assert(spec_split(s, sep) =~= seq![s]);
    }
}

/// Joining what splitting produced gives the original text back.
pub proof fn lemma_join_split(s: Seq<char>, sep: char)
    ensures
        spec_join(spec_split(s, sep), sep) == s,
    decreases s.len(),
{
    lemma_split_len(s, sep);
    if s.len() == 0 {
        assert(spec_split(s, sep) =~= seq![Seq::<char>::empty()]);
        assert(spec_join(spec_split(s, sep), sep) =~= s);
    } else if s[0] == sep {
        lemma_join_split(s.drop_first(), sep);
        lemma_split_len(s.drop_first(), sep);
        let r = seq![Seq::<char>::empty()] + spec_split(s.drop_first(), sep);
        assert(r.drop_first() =~= spec_split(s.drop_first(), sep));
        assert(r.len() >= 2);
        assert(spec_join(r, sep) =~= Seq::<char>::empty() + seq![sep] + spec_join(
            spec_split(s.drop_first(), sep),
            sep,
        ));
        assert(spec_join(r, sep) =~= s);
    } else {
        lemma_join_split(s.drop_first(), sep);
        lemma_split_len(s.drop_first(), sep);
        let rt = spec_split(s.drop_first(), sep);
        let r = seq![seq![s[0]] + rt[0]] + rt.drop_first();
        assert(spec_split(s, sep) == r);
        if rt.len() == 1 {
            assert(r.len() == 1);
            assert(spec_join(rt, sep) == rt[0]);
            assert(spec_join(r, sep) == seq![s[0]] + rt[0]);
            assert(spec_join(r, sep) =~= s);
        } else {
            assert(r.len() >= 2);
            assert(r.drop_first() =~= rt.drop_first());
            assert(spec_join(r, sep) == r[0] + seq![sep] + spec_join(rt.drop_first(), sep));
            assert(spec_join(rt, sep) == rt[0] + seq![sep] + spec_join(rt.drop_first(), sep));
            assert(seq![s[0]] + spec_join(rt, sep) =~= spec_join(r, sep));
            assert(spec_join(r, sep) =~= s);
        }
    }
}

/// The views of a vector of segment strings.
pub open spec fn spec_seg_views(parts: Seq<String>) -> Seq<Seq<char>> {
    parts.map_values(|p: String| p@)
}

/// Split a key at every `/`, as segment strings.
fn split_segments(s: &str) -> (r: Vec<String>)
    ensures
        spec_seg_views(r@) == spec_split(s@, '/'),
{
    let len = s.unicode_len();
    let mut out: Vec<String> = Vec::new();
    let mut start: usize = 0;
    let mut i: usize = 0;
    proof {
        assert(s@.skip(0) =~= s@);
        assert(spec_seg_views(out@) =~= Seq::<Seq<char>>::empty());
        assert(spec_seg_views(out@) + spec_split(s@.skip(0), '/') =~= spec_split(s@, '/'));
    }
    while i < len
        invariant
            start <= i <= len,
            len == s@.len(),
            forall|k: int| start <= k < i ==> s@[k] != '/',
            spec_split(s@, '/') == spec_seg_views(out@) + spec_split(
                s@.skip(start as int),
                '/',
            ),
        decreases len - i,
    {
        let c = s.get_char(i);
        if c == '/' {
            let seg = s.substring_char(start, i).to_owned();
            let ghost old_out = out@;
            out.push(seg);
            proof {
                let pre = s@.subrange(start as int, i as int);
                assert(!pre.contains('/')) by {
                    if pre.contains('/') {
                        let k = choose|k: int| 0 <= k < pre.len() && pre[k] == '/';
                        assert(s@[start + k] == '/');
                    }
                };
                lemma_split_whole(pre, '/');
                lemma_split_append(pre, s@.skip(i + 1), '/');
                assert(s@.skip(start as int) =~= pre + seq!['/'] + s@.skip(i + 1));
                assert(spec_seg_views(out@) =~= spec_seg_views(old_out) + seq![pre]);
                assert(spec_seg_views(old_out) + (seq![pre] + spec_split(s@.skip(i + 1), '/'))
                    =~= (spec_seg_views(old_out) + seq![pre]) + spec_split(
                    s@.skip(i + 1),
                    '/',
                ));
            }
            start = i + 1;
        }
        i = i + 1;
    }
    let seg = s.substring_char(start, len).to_owned();
    let ghost old_out = out@;
    out.push(seg);
    proof {
        let pre = s@.subrange(start as int, len as int);
        assert(pre =~= s@.skip(start as int));
        assert(!pre.contains('/')) by {
            if pre.contains('/') {
                let k = choose|k: int| 0 <= k < pre.len() && pre[k] == '/';
                assert(s@[start + k] == '/');
            }
        };
        lemma_split_whole(pre, '/');
        assert(spec_seg_views(out@) =~= spec_seg_views(old_out) + seq![pre]);
        assert(spec_seg_views(out@) =~= spec_split(s@, '/'));
    }
    out
}

/// Join the segments from index `from` on with `/` between each pair.
fn join_segments(parts: &Vec<String>, from: usize) -> (r: String)
    requires
        from < parts@.len(),
    ensures
        r@ == spec_join(spec_seg_views(parts@).skip(from as int), '/'),
{
    let ghost views = spec_seg_views(parts@);
    let n = parts.len();
    let mut out = String::new();
    out.append(parts[from].as_str());
    let mut k: usize = from + 1;
    proof {
        reveal_strlit("/");
        assert(views.subrange(from as int, from + 1).drop_first() =~= Seq::<Seq<char>>::empty());
        assert(spec_join(views.subrange(from as int, from + 1), '/') == views[from as int]);
        assert(out@ == spec_join(views.subrange(from as int, k as int), '/'));
    }
    while k < n
        invariant
            from < k <= n,
            n == parts@.len(),
            views == spec_seg_views(parts@),
            out@ == spec_join(views.subrange(from as int, k as int), '/'),
        decreases n - k,
    {
        out.append("/");
        out.append(parts[k].as_str());
        proof {
            reveal_strlit("/");
            assert("/"@ =~= seq!['/']);
            lemma_join_push(views.subrange(from as int, k as int), views[k as int], '/');
            assert(views.subrange(from as int, k as int).push(views[k as int]) =~= views.subrange(
                from as int,
                k + 1,
            ));
        }
        k = k + 1;
    }
    proof {
        assert(views.subrange(from as int, parts@.len() as int) =~= views.skip(from as int));
    }
    out
}

/// Joining after appending one more segment appends a separator and the
/// segment.
proof fn lemma_join_push(parts: Seq<Seq<char>>, x: Seq<char>, sep: char)
    requires
        parts.len() >= 1,
    ensures
        spec_join(parts.push(x), sep) == spec_join(parts, sep) + seq![sep] + x,
    decreases parts.len(),
{
    if parts.len() == 1 {
        let p = parts.push(x);
        assert(p.len() == 2);
        assert(p[0] == parts[0]);
        assert(p.drop_first() =~= seq![x]);
        assert(spec_join(p.drop_first(), sep) == x);
        assert(spec_join(parts, sep) == parts[0]);
    } else {
        lemma_join_push(parts.drop_first(), x, sep);
        let p = parts.push(x);
        assert(p[0] == parts[0]);
        assert(p.drop_first() =~= parts.drop_first().push(x));
        assert(spec_join(p, sep) == p[0] + seq![sep] + spec_join(parts.drop_first().push(x), sep));
        assert(spec_join(parts, sep) + seq![sep] + x =~= parts[0] + seq![sep] + (spec_join(
            parts.drop_first(),
            sep,
        ) + seq![sep] + x));
        assert(spec_join(p, sep) =~= spec_join(parts, sep) + seq![sep] + x);
    }
}

/// The pub/sub key for the given components.
pub open spec fn spec_pubsub_key(
    base_path: Seq<char>,
    entity_id: Seq<char>,
    subject: Seq<char>,
    source_id: Seq<char>,
    target_id: Option<Seq<char>>,
) -> Seq<char> {
    base_path + "/@v0/"@ + entity_id + "/pubsub/"@ + subject + "/"@ + source_id + (match target_id {
        Some(t) => "/@target/"@ + t,
        None => Seq::empty(),
    })
}

/// The request/reply key for the given components.
pub open spec fn spec_rpc_key(
    base_path: Seq<char>,
    entity_id: Seq<char>,
    procedure: Seq<char>,
    responder_id: Seq<char>,
) -> Seq<char> {
    base_path + "/@v0/"@ + entity_id + "/@rpc/"@ + procedure + "/"@ + responder_id
}

/// Construct a key expression for a publish-subscribe interaction.
///
/// Whether `subject` is well-known is an advisory property, not a validity
/// requirement: check it separately against a subject registry where a
/// warning is wanted.
pub fn construct_pubsub_key(
    base_path: &str,
    entity_id: &str,
    subject: &str,
    source_id: &str,
    target_id: Option<&str>,
) -> (r: String)
    ensures
        r@ == spec_pubsub_key(
            base_path@,
            entity_id@,
            subject@,
            source_id@,
            (match target_id {
                Some(t) => Some(t@),
                None => None,
            }),
        ),
{
    let mut out = String::new();
    out.append(base_path);
    out.append("/@v0/");
    out.append(entity_id);
    out.append("/pubsub/");
    out.append(subject);
    out.append("/");
    out.append(source_id);
    match target_id {
        Some(t) => {
            out.append("/@target/");
            out.append(t);
        },
        None => {},
    }
    out
}

/// Construct a key expression for a request-reply interaction.
pub fn construct_rpc_key(
    base_path: &str,
    entity_id: &str,
    procedure: &str,
    responder_id: &str,
) -> (r: String)
    ensures
        r@ == spec_rpc_key(base_path@, entity_id@, procedure@, responder_id@),
{
    let mut out = String::new();
    out.append(base_path);
    out.append("/@v0/");
    out.append(entity_id);
    out.append("/@rpc/");
    out.append(procedure);
    out.append("/");
    out.append(responder_id);
    out
}

/// The components recovered from a pub/sub key.
pub struct PubsubKeyParts {
    pub base_path: String,
    pub entity_id: String,
    pub subject: String,
    pub source_id: String,
}

impl View for PubsubKeyParts {
    type V = (Seq<char>, Seq<char>, Seq<char>, Seq<char>);

    open spec fn view(&self) -> (Seq<char>, Seq<char>, Seq<char>, Seq<char>) {
        (self.base_path@, self.entity_id@, self.subject@, self.source_id@)
    }
}

/// The components recovered from a request/reply key.
pub struct RpcKeyParts {
    pub base_path: String,
    pub entity_id: String,
    pub procedure: String,
    pub responder_id: String,
}

impl View for RpcKeyParts {
    type V = (Seq<char>, Seq<char>, Seq<char>, Seq<char>);

    open spec fn view(&self) -> (Seq<char>, Seq<char>, Seq<char>, Seq<char>) {
        (self.base_path@, self.entity_id@, self.procedure@, self.responder_id@)
    }
}

/// Parse a key against the expected shape: at least six segments, the
/// version token in segment 1, the discriminator in segment 3; everything
/// from segment 5 on, rejoined, is the trailing id.
pub open spec fn spec_parse_key(key: Seq<char>, discriminator: Seq<char>) -> Option<
    (Seq<char>, Seq<char>, Seq<char>, Seq<char>),
> {
    let parts = spec_split(key, '/');
    if parts.len() < 6 {
        None
    } else if parts[1] != "@v0"@ || parts[3] != discriminator {
        None
    } else {
        Some((parts[0], parts[2], parts[4], spec_join(parts.skip(5), '/')))
    }
}

/// The parsed components of a pub/sub key.
pub open spec fn spec_parse_pubsub_key(key: Seq<char>) -> Option<
    (Seq<char>, Seq<char>, Seq<char>, Seq<char>),
> {
    spec_parse_key(key, "pubsub"@)
}

/// The parsed components of a request/reply key.
pub open spec fn spec_parse_rpc_key(key: Seq<char>) -> Option<
    (Seq<char>, Seq<char>, Seq<char>, Seq<char>),
> {
    spec_parse_key(key, "@rpc"@)
}

/// The message carried by a key parse error, naming the offending key.
pub open spec fn spec_key_err_msg(key: Seq<char>) -> Seq<char> {
    "key '"@ + key + "' does not match the expected format"@
}

fn key_err(key: &str) -> (r: Error)
    ensures
        r matches Error::KeyParseError(m) && m@ == spec_key_err_msg(key@),
{
    let mut m = String::new();
    m.append("key '");
    m.append(key);
    m.append("' does not match the expected format");
    Error::KeyParseError(m)
}

/// Parse a pub/sub key expression into its components. The source id is
/// everything from segment 5 on, rejoined with `/`.
pub fn parse_pubsub_key(key: &str) -> (r: Result<PubsubKeyParts, Error>)
    ensures
        match r {
            Ok(p) => spec_parse_pubsub_key(key@) == Some(p@),
            Err(e) => {
                &&& spec_parse_pubsub_key(key@) is None
                &&& e matches Error::KeyParseError(m) && m@ == spec_key_err_msg(key@)
            },
        },
{
    let parts = split_segments(key);
    if parts.len() < 6 {
        return Err(key_err(key));
    }
    let v0 = String::from_str("@v0");
    let disc = String::from_str("pubsub");
    if !(parts[1].eq(&v0)) || !(parts[3].eq(&disc)) {
        return Err(key_err(key));
    }
    let source_id = join_segments(&parts, 5);
    let base_path = parts[0].clone();
    let entity_id = parts[2].clone();
    let subject = parts[4].clone();
    proof {
        assert(spec_seg_views(parts@)[1] == parts@[1]@);
        assert(spec_seg_views(parts@)[3] == parts@[3]@);
    }
    Ok(PubsubKeyParts { base_path, entity_id, subject, source_id })
}

/// Parse a request/reply key expression into its components. The responder
/// id is everything from segment 5 on, rejoined with `/`.
pub fn parse_rpc_key(key: &str) -> (r: Result<RpcKeyParts, Error>)
    ensures
        match r {
            Ok(p) => spec_parse_rpc_key(key@) == Some(p@),
            Err(e) => {
                &&& spec_parse_rpc_key(key@) is None
                &&& e matches Error::KeyParseError(m) && m@ == spec_key_err_msg(key@)
            },
        },
{
    let parts = split_segments(key);
    if parts.len() < 6 {
        return Err(key_err(key));
    }
    let v0 = String::from_str("@v0");
    let disc = String::from_str("@rpc");
    if !(parts[1].eq(&v0)) || !(parts[3].eq(&disc)) {
        return Err(key_err(key));
    }
    let responder_id = join_segments(&parts, 5);
    let base_path = parts[0].clone();
    let entity_id = parts[2].clone();
    let procedure = parts[4].clone();
    proof {
        assert(spec_seg_views(parts@)[1] == parts@[1]@);
        assert(spec_seg_views(parts@)[3] == parts@[3]@);
    }
    Ok(RpcKeyParts { base_path, entity_id, procedure, responder_id })
}

/// Get the subject from a pub/sub key expression.
pub fn get_subject_from_pubsub_key(key: &str) -> (r: Result<String, Error>)
    ensures
        match r {
            Ok(s) => spec_parse_pubsub_key(key@) matches Some(p) && s@ == p.2,
            Err(e) => {
                &&& spec_parse_pubsub_key(key@) is None
                &&& e matches Error::KeyParseError(m) && m@ == spec_key_err_msg(key@)
            },
        },
{
    match parse_pubsub_key(key) {
        Ok(p) => Ok(p.subject),
        Err(e) => Err(e),
    }
}

/// The split of a constructed key: the five leading segments, then the
/// split of the trailing id.
proof fn lemma_constructed_key_split(
    base_path: Seq<char>,
    entity_id: Seq<char>,
    mid: Seq<char>,
    subject: Seq<char>,
    trailing: Seq<char>,
    version: Seq<char>,
    key: Seq<char>,
)
    requires
        !base_path.contains('/'),
        !entity_id.contains('/'),
        !subject.contains('/'),
        !version.contains('/'),
        !mid.contains('/'),
        key =~= base_path + (seq!['/'] + version + seq!['/']) + entity_id + (seq!['/'] + mid
            + seq!['/']) + subject + seq!['/'] + trailing,
    ensures
        spec_split(key, '/') == seq![base_path, version, entity_id, mid, subject] + spec_split(
            trailing,
            '/',
        ),
{
    let t5 = trailing;
    let t4 = subject + seq!['/'] + t5;
    let t3 = mid + seq!['/'] + t4;
    let t2 = entity_id + seq!['/'] + t3;
    let t1 = version + seq!['/'] + t2;
    let t0 = base_path + seq!['/'] + t1;
    assert(key =~= t0);
    lemma_split_append(base_path, t1, '/');
    lemma_split_append(version, t2, '/');
    lemma_split_append(entity_id, t3, '/');
    lemma_split_append(mid, t4, '/');
    lemma_split_append(subject, t5, '/');
    lemma_split_whole(base_path, '/');
    lemma_split_whole(version, '/');
    lemma_split_whole(entity_id, '/');
    lemma_split_whole(mid, '/');
    lemma_split_whole(subject, '/');
    assert(spec_split(key, '/') =~= seq![base_path, version, entity_id, mid, subject]
        + spec_split(trailing, '/'));
}

/// Round trip: parsing a constructed pub/sub key recovers the components,
/// for any components whose leading parts contain no separator. The source
/// id may contain separators; its sub-segments are rejoined.
pub proof fn lemma_pubsub_key_roundtrip(
    base_path: Seq<char>,
    entity_id: Seq<char>,
    subject: Seq<char>,
    source_id: Seq<char>,
)
    requires
        !base_path.contains('/'),
        !entity_id.contains('/'),
        !subject.contains('/'),
    ensures
        spec_parse_pubsub_key(spec_pubsub_key(base_path, entity_id, subject, source_id, None))
            == Some((base_path, entity_id, subject, source_id)),
{
    let key = spec_pubsub_key(base_path, entity_id, subject, source_id, None);
    reveal_strlit("/@v0/");
    reveal_strlit("@v0");
    reveal_strlit("/pubsub/");
    reveal_strlit("pubsub");
    reveal_strlit("/");
    assert("@v0"@ =~= seq!['@', 'v', '0']);
    assert("pubsub"@ =~= seq!['p', 'u', 'b', 's', 'u', 'b']);
    assert(!"@v0"@.contains('/')) by {
        if "@v0"@.contains('/') {
            let i = choose|i: int| 0 <= i < "@v0"@.len() && "@v0"@[i] == '/';
        }
    };
    assert(!"pubsub"@.contains('/')) by {
        if "pubsub"@.contains('/') {
            let i = choose|i: int| 0 <= i < "pubsub"@.len() && "pubsub"@[i] == '/';
        }
    };
    assert(key =~= base_path + (seq!['/'] + "@v0"@ + seq!['/']) + entity_id + (seq!['/']
        + "pubsub"@ + seq!['/']) + subject + seq!['/'] + source_id);
    lemma_constructed_key_split(
        base_path,
        entity_id,
        "pubsub"@,
        subject,
        source_id,
        "@v0"@,
        key,
    );
    let parts = spec_split(key, '/');
    lemma_split_len(source_id, '/');
    assert(parts.len() >= 6);
    assert(parts[0] == base_path && parts[1] == "@v0"@ && parts[2] == entity_id && parts[3]
        == "pubsub"@ && parts[4] == subject);
    assert(parts.skip(5) =~= spec_split(source_id, '/'));
    lemma_join_split(source_id, '/');
}

/// Round trip: parsing a constructed request/reply key recovers the
/// components, for any components whose leading parts contain no
/// separator. The responder id may contain separators; its sub-segments
/// are rejoined.
pub proof fn lemma_rpc_key_roundtrip(
    base_path: Seq<char>,
    entity_id: Seq<char>,
    procedure: Seq<char>,
    responder_id: Seq<char>,
)
    requires
        !base_path.contains('/'),
        !entity_id.contains('/'),
        !procedure.contains('/'),
    ensures
        spec_parse_rpc_key(spec_rpc_key(base_path, entity_id, procedure, responder_id)) == Some(
            (base_path, entity_id, procedure, responder_id),
        ),
{
    let key = spec_rpc_key(base_path, entity_id, procedure, responder_id);
    reveal_strlit("/@v0/");
    reveal_strlit("@v0");
    reveal_strlit("/@rpc/");
    reveal_strlit("@rpc");
    reveal_strlit("/");
    assert("@v0"@ =~= seq!['@', 'v', '0']);
    assert("@rpc"@ =~= seq!['@', 'r', 'p', 'c']);
    assert(!"@v0"@.contains('/')) by {
        if "@v0"@.contains('/') {
            let i = choose|i: int| 0 <= i < "@v0"@.len() && "@v0"@[i] == '/';
        }
    };
    assert(!"@rpc"@.contains('/')) by {
        if "@rpc"@.contains('/') {
            let i = choose|i: int| 0 <= i < "@rpc"@.len() && "@rpc"@[i] == '/';
        }
    };
    assert(key =~= base_path + (seq!['/'] + "@v0"@ + seq!['/']) + entity_id + (seq!['/'] + "@rpc"@
        + seq!['/']) + procedure + seq!['/'] + responder_id);
    lemma_constructed_key_split(
        base_path,
        entity_id,
        "@rpc"@,
        procedure,
        responder_id,
        "@v0"@,
        key,
    );
    let parts = spec_split(key, '/');
    lemma_split_len(responder_id, '/');
    assert(parts.len() >= 6);
    assert(parts[0] == base_path && parts[1] == "@v0"@ && parts[2] == entity_id && parts[3]
        == "@rpc"@ && parts[4] == procedure);
    assert(parts.skip(5) =~= spec_split(responder_id, '/'));
    lemma_join_split(responder_id, '/');
}

} // verus!
