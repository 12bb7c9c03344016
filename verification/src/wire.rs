//! Wire types of the daemon protocol.
//!
//! A request names an operation and carries its arguments as text; a
//! response carries a status flag and a message.  Both travel as JSON
//! objects inside length-prefixed frames.  Arguments are kept as an
//! ordered list of key/value pairs; encoders emit them in that order,
//! so encoding is canonical and decoding is proved to invert it.
//!
//! Protocol choice: the decoders read the canonical rendering: keys
//! in declaration order and no insignificant whitespace, with every
//! JSON string escape accepted (canonical `\"`, `\\`, `\u00XX`,
//! and the short forms).  A frame in another member order or padded
//! with whitespace is refused rather than guessed at.

use vstd::prelude::*;
use vstd::string::StringExecFns;
use crate::json;
use crate::text;

verus! {

/// Mathematical shape of a request.
pub ghost struct ReqView {
    pub name: Seq<char>,
    pub args: Seq<(Seq<char>, Seq<char>)>,
}

/// One protocol request: an operation name and its arguments.
pub struct Request {
    pub name: String,
    pub args: Vec<(String, String)>,
}

impl View for Request {
    type V = ReqView;

    open spec fn view(&self) -> ReqView {
        ReqView { name: self.name@, args: kv_view(self.args@) }
    }
}

/// Mathematical shape of a response.
pub ghost struct RespView {
    pub status: bool,
    pub message: Seq<char>,
}

/// One protocol response: success flag and a message, which may itself
/// carry a JSON document.
pub struct Response {
    pub status: bool,
    pub message: String,
}

impl View for Response {
    type V = RespView;

    open spec fn view(&self) -> RespView {
        RespView { status: self.status, message: self.message@ }
    }
}

/// First value stored under `key`, if any.
pub open spec fn lookup_arg(args: Seq<(Seq<char>, Seq<char>)>, key: Seq<char>) -> Option<
    Seq<char>,
>
    decreases args.len(),
{
    if args.len() == 0 {
        None
    } else if args[0].0 == key {
        Some(args[0].1)
    } else {
        lookup_arg(args.drop_first(), key)
    }
}

/// The view of a key/value pair list.
pub open spec fn kv_view(a: Seq<(String, String)>) -> Seq<(Seq<char>, Seq<char>)> {
    a.map_values(|p: (String, String)| (p.0@, p.1@))
}

/// First value stored under `key` in a list of key/value pairs.
pub fn lookup_pair(pairs: &Vec<(String, String)>, key: &str) -> (r: Option<String>)
    ensures
        match r {
            Some(s) => lookup_arg(kv_view(pairs@), key@) == Some(s@),
            None => lookup_arg(kv_view(pairs@), key@) is None,
        },
{
    let ghost av = kv_view(pairs@);
    let mut i: usize = 0;
    proof {
        assert(av.skip(0) =~= av);
    }
    while i < pairs.len()
        invariant
            i <= pairs@.len(),
            av == kv_view(pairs@),
            lookup_arg(av.skip(i as int), key@) == lookup_arg(av, key@),
        decreases pairs@.len() - i,
    {
        assert(av.skip(i as int)[0] == av[i as int]);
        if crate::text::str_eq(pairs[i].0.as_str(), key) {
            return Some(pairs[i].1.clone());
        }
        assert(av.skip(i as int).drop_first() =~= av.skip(i + 1));
        i += 1;
    }
    assert(av.skip(i as int).len() == 0);
    None
}

impl Request {
    /// A request with the given operation name and arguments.
    pub fn new(name: &str, args: Vec<(String, String)>) -> (r: Request)
        ensures
            r@.name == name@,
            r@.args == args@.map_values(|p: (String, String)| (p.0@, p.1@)),
    {
        Request { name: String::from_str(name), args }
    }

    /// The first argument stored under `key`, if any.
    pub fn arg(&self, key: &str) -> (r: Option<String>)
        ensures
            match r {
                Some(s) => lookup_arg(self@.args, key@) == Some(s@),
                None => lookup_arg(self@.args, key@) is None,
            },
    {
        lookup_pair(&self.args, key)
    }

    pub fn ping() -> (r: Request)
        ensures
            r@.name == "ping"@ && r@.args.len() == 0,
    {
        Request::new("ping", Vec::new())
    }

    pub fn pause() -> (r: Request)
        ensures
            r@.name == "pause"@ && r@.args.len() == 0,
    {
        Request::new("pause", Vec::new())
    }

    pub fn resume() -> (r: Request)
        ensures
            r@.name == "resume"@ && r@.args.len() == 0,
    {
        Request::new("resume", Vec::new())
    }

    pub fn toggle_pause() -> (r: Request)
        ensures
            r@.name == "toggle_pause"@ && r@.args.len() == 0,
    {
        Request::new("toggle_pause", Vec::new())
    }

    pub fn stop() -> (r: Request)
        ensures
            r@.name == "stop"@ && r@.args.len() == 0,
    {
        Request::new("stop", Vec::new())
    }

    /// A request to play `file_path`, mixed over the running tracks when
    /// `concurrent` holds, else replacing them.
    pub fn play(file_path: &str, concurrent: bool) -> (r: Request)
        ensures
            r@.name == "play"@,
            r@.args == seq![("file_path"@, file_path@), ("concurrent"@, bool_lit(concurrent))],
    {
        let mut args: Vec<(String, String)> = Vec::new();
        args.push((String::from_str("file_path"), String::from_str(file_path)));
        args.push(
            (
                String::from_str("concurrent"),
                String::from_str(if concurrent {
                    "true"
                } else {
                    "false"
                }),
            ),
        );
        proof {
            reveal_strlit("true");
            reveal_strlit("false");
            if concurrent {
                assert("true"@ =~= bool_lit(true));
            } else {
                assert("false"@ =~= bool_lit(false));
            }
        }
        let r = Request::new("play", args);
        assert(r@.args =~= seq![("file_path"@, file_path@), ("concurrent"@, bool_lit(concurrent))]);
        r
    }

    pub fn get_is_paused() -> (r: Request)
        ensures
            r@.name == "is_paused"@ && r@.args.len() == 0,
    {
        Request::new("is_paused", Vec::new())
    }

    pub fn get_volume() -> (r: Request)
        ensures
            r@.name == "get_volume"@ && r@.args.len() == 0,
    {
        Request::new("get_volume", Vec::new())
    }

    pub fn get_position() -> (r: Request)
        ensures
            r@.name == "get_position"@ && r@.args.len() == 0,
    {
        Request::new("get_position", Vec::new())
    }

    pub fn get_duration() -> (r: Request)
        ensures
            r@.name == "get_duration"@ && r@.args.len() == 0,
    {
        Request::new("get_duration", Vec::new())
    }

    pub fn get_state() -> (r: Request)
        ensures
            r@.name == "get_state"@ && r@.args.len() == 0,
    {
        Request::new("get_state", Vec::new())
    }

    pub fn get_current_file_path() -> (r: Request)
        ensures
            r@.name == "get_current_file_path"@ && r@.args.len() == 0,
    {
        Request::new("get_current_file_path", Vec::new())
    }

    pub fn get_input() -> (r: Request)
        ensures
            r@.name == "get_input"@ && r@.args.len() == 0,
    {
        Request::new("get_input", Vec::new())
    }

    pub fn get_inputs() -> (r: Request)
        ensures
            r@.name == "get_inputs"@ && r@.args.len() == 0,
    {
        Request::new("get_inputs", Vec::new())
    }

    pub fn get_tracks() -> (r: Request)
        ensures
            r@.name == "get_tracks"@ && r@.args.len() == 0,
    {
        Request::new("get_tracks", Vec::new())
    }

    pub fn get_full_state() -> (r: Request)
        ensures
            r@.name == "get_full_state"@ && r@.args.len() == 0,
    {
        Request::new("get_full_state", Vec::new())
    }

    pub fn kill() -> (r: Request)
        ensures
            r@.name == "kill"@ && r@.args.len() == 0,
    {
        Request::new("kill", Vec::new())
    }

    /// A request to set the master volume, in 1/1000 gain units.
    pub fn set_volume(volume: u64) -> (r: Request)
        ensures
            r@.name == "set_volume"@,
            r@.args == seq![("volume"@, crate::text::scaled_dec(volume))],
    {
        let mut args: Vec<(String, String)> = Vec::new();
        args.push((String::from_str("volume"), crate::text::scaled_to_dec_string(volume)));
        let r = Request::new("set_volume", args);
        assert(r@.args =~= seq![("volume"@, crate::text::scaled_dec(volume))]);
        r
    }

    /// A request to seek to a position, in milliseconds.
    pub fn seek(position: u64) -> (r: Request)
        ensures
            r@.name == "seek"@,
            r@.args == seq![("position"@, crate::text::scaled_dec(position))],
    {
        let mut args: Vec<(String, String)> = Vec::new();
        args.push((String::from_str("position"), crate::text::scaled_to_dec_string(position)));
        let r = Request::new("seek", args);
        assert(r@.args =~= seq![("position"@, crate::text::scaled_dec(position))]);
        r
    }

    /// A request to route the named capture device into the virtual
    /// microphone.
    pub fn set_input(name: &str) -> (r: Request)
        ensures
            r@.name == "set_input"@,
            r@.args == seq![("input_name"@, name@)],
    {
        let mut args: Vec<(String, String)> = Vec::new();
        args.push((String::from_str("input_name"), String::from_str(name)));
        let r = Request::new("set_input", args);
        assert(r@.args =~= seq![("input_name"@, name@)]);
        r
    }
}

impl Response {
    /// A response with the given status and message.
    pub fn new(status: bool, message: &str) -> (r: Response)
        ensures
            r@.status == status,
            r@.message == message@,
    {
        Response { status, message: String::from_str(message) }
    }
}

pub open spec fn key_name() -> Seq<char> {
    seq!['n', 'a', 'm', 'e']
}

pub open spec fn key_args() -> Seq<char> {
    seq!['a', 'r', 'g', 's']
}

pub open spec fn key_status() -> Seq<char> {
    seq!['s', 't', 'a', 't', 'u', 's']
}

pub open spec fn key_message() -> Seq<char> {
    seq!['m', 'e', 's', 's', 'a', 'g', 'e']
}

pub open spec fn bool_lit(b: bool) -> Seq<char> {
    if b {
        seq!['t', 'r', 'u', 'e']
    } else {
        seq!['f', 'a', 'l', 's', 'e']
    }
}

/// The canonical JSON text of a request:
/// `{"name":NAME,"args":{ARGS}}`.
pub open spec fn spec_encode_request(rv: ReqView) -> Seq<char> {
    seq!['{'] + json::jstr(key_name()) + seq![':'] + json::jstr(rv.name) + seq![','] + json::jstr(
        key_args(),
    ) + seq![':'] + json::enc_obj(rv.args) + seq!['}']
}

/// The canonical JSON text of a response:
/// `{"status":BOOL,"message":MESSAGE}`.
pub open spec fn spec_encode_response(rv: RespView) -> Seq<char> {
    seq!['{'] + json::jstr(key_status()) + seq![':'] + bool_lit(rv.status) + seq![','] + json::jstr(
        key_message(),
    ) + seq![':'] + json::jstr(rv.message) + seq!['}']
}

/// Parse the canonical request text, whole.
pub open spec fn spec_decode_request(v: Seq<char>) -> Option<ReqView> {
    if v.len() > 0 && v[0] == '{' {
        match json::parse_jstr(v.drop_first()) {
            Some((k1, r1)) => if k1 == key_name() && r1.len() > 0 && r1[0] == ':' {
                match json::parse_jstr(r1.drop_first()) {
                    Some((nm, r2)) => if r2.len() > 0 && r2[0] == ',' {
                        match json::parse_jstr(r2.drop_first()) {
                            Some((k2, r3)) => if k2 == key_args() && r3.len() > 0 && r3[0]
                                == ':' {
                                match json::parse_obj(r3.drop_first()) {
                                    Some((args, r4)) => if r4 == seq!['}'] {
                                        Some(ReqView { name: nm, args })
                                    } else {
                                        None
                                    },
                                    None => None,
                                }
                            } else {
                                None
                            },
                            None => None,
                        }
                    } else {
                        None
                    },
                    None => None,
                }
            } else {
                None
            },
            None => None,
        }
    } else {
        None
    }
}

/// Parse a `true` or `false` literal prefix.
pub open spec fn parse_bool_lit(v: Seq<char>) -> Option<(bool, Seq<char>)> {
    if v.len() >= 4 && v.take(4) == bool_lit(true) {
        Some((true, v.skip(4)))
    } else if v.len() >= 5 && v.take(5) == bool_lit(false) {
        Some((false, v.skip(5)))
    } else {
        None
    }
}

/// Parse the canonical response text, whole.
pub open spec fn spec_decode_response(v: Seq<char>) -> Option<RespView> {
    if v.len() > 0 && v[0] == '{' {
        match json::parse_jstr(v.drop_first()) {
            Some((k1, r1)) => if k1 == key_status() && r1.len() > 0 && r1[0] == ':' {
                match parse_bool_lit(r1.drop_first()) {
                    Some((b, r2)) => if r2.len() > 0 && r2[0] == ',' {
                        match json::parse_jstr(r2.drop_first()) {
                            Some((k2, r3)) => if k2 == key_message() && r3.len() > 0 && r3[0]
                                == ':' {
                                match json::parse_jstr(r3.drop_first()) {
                                    Some((msg, r4)) => if r4 == seq!['}'] {
                                        Some(RespView { status: b, message: msg })
                                    } else {
                                        None
                                    },
                                    None => None,
                                }
                            } else {
                                None
                            },
                            None => None,
                        }
                    } else {
                        None
                    },
                    None => None,
                }
            } else {
                None
            },
            None => None,
        }
    } else {
        None
    }
}

// ---------------------------------------------------------------------
// Encoding round trips (the framing law at the JSON layer)
// ---------------------------------------------------------------------

/// Decoding an encoded request yields the request again.
pub proof fn lemma_request_round_trip(rv: ReqView)
    ensures
        spec_decode_request(spec_encode_request(rv)) == Some(rv),
{
    let w = spec_encode_request(rv);
    let tail1 = seq![':'] + json::jstr(rv.name) + seq![','] + json::jstr(key_args()) + seq![':']
        + json::enc_obj(rv.args) + seq!['}'];
    assert(w[0] == '{');
    assert(w.drop_first() =~= json::jstr(key_name()) + tail1);
    json::lemma_parse_jstr_rt(key_name(), tail1);
    assert(tail1[0] == ':');
    let tail2 = seq![','] + json::jstr(key_args()) + seq![':'] + json::enc_obj(rv.args)
        + seq!['}'];
    assert(tail1.drop_first() =~= json::jstr(rv.name) + tail2);
    json::lemma_parse_jstr_rt(rv.name, tail2);
    assert(tail2[0] == ',');
    let tail3 = seq![':'] + json::enc_obj(rv.args) + seq!['}'];
    assert(tail2.drop_first() =~= json::jstr(key_args()) + tail3);
    json::lemma_parse_jstr_rt(key_args(), tail3);
    assert(tail3[0] == ':');
    assert(tail3.drop_first() =~= json::enc_obj(rv.args) + seq!['}']);
    json::lemma_parse_obj_rt(rv.args, seq!['}']);
}

/// Decoding an encoded response yields the response again.
#[verifier::rlimit(50)]
pub proof fn lemma_response_round_trip(rv: RespView)
    ensures
        spec_decode_response(spec_encode_response(rv)) == Some(rv),
{
    let w = spec_encode_response(rv);
    let tail1 = seq![':'] + bool_lit(rv.status) + seq![','] + json::jstr(key_message())
        + seq![':'] + json::jstr(rv.message) + seq!['}'];
    assert(w[0] == '{');
    assert(w.drop_first() =~= json::jstr(key_status()) + tail1);
    json::lemma_parse_jstr_rt(key_status(), tail1);
    assert(tail1[0] == ':');
    let tail2 = seq![','] + json::jstr(key_message()) + seq![':'] + json::jstr(rv.message)
        + seq!['}'];
    assert(tail1.drop_first() =~= bool_lit(rv.status) + tail2);
    if rv.status {
        assert(tail1.drop_first().take(4) =~= bool_lit(true));
        assert(tail1.drop_first().skip(4) =~= tail2);
    } else {
        assert(tail1.drop_first().take(5) =~= bool_lit(false));
        assert(tail1.drop_first().len() >= 5);
        if tail1.drop_first().take(4) == bool_lit(true) {
            assert(tail1.drop_first()[0] == 'f');
            assert(bool_lit(true)[0] == 't');
            assert(false);
        }
        assert(tail1.drop_first().skip(5) =~= tail2);
    }
    assert(parse_bool_lit(tail1.drop_first()) == Some((rv.status, tail2)));
    assert(tail2[0] == ',');
    let tail3 = seq![':'] + json::jstr(rv.message) + seq!['}'];
    assert(tail2.drop_first() =~= json::jstr(key_message()) + tail3);
    json::lemma_parse_jstr_rt(key_message(), tail3);
    assert(tail3[0] == ':');
    assert(tail3.drop_first() =~= json::jstr(rv.message) + seq!['}']);
    json::lemma_parse_jstr_rt(rv.message, seq!['}']);
}

// ---------------------------------------------------------------------
// Executable codec
// ---------------------------------------------------------------------

/// Encode a request as its canonical JSON text.
pub fn encode_request(r: &Request) -> (out: String)
    ensures
        out@ == spec_encode_request(r@),
{
    let mut out: Vec<char> = Vec::new();
    out.push('{');
    let kn: Vec<char> = vec!['n', 'a', 'm', 'e'];
    assert(kn@ =~= key_name());
    json::emit_jstr(&mut out, &kn);
    out.push(':');
    let nm = text::string_to_chars(r.name.as_str());
    json::emit_jstr(&mut out, &nm);
    out.push(',');
    let ka: Vec<char> = vec!['a', 'r', 'g', 's'];
    assert(ka@ =~= key_args());
    json::emit_jstr(&mut out, &ka);
    out.push(':');
    emit_args(&mut out, &r.args);
    out.push('}');
    assert(out@ =~= spec_encode_request(r@));
    text::chars_to_string(&out)
}

/// Append the argument object of a request.
fn emit_args(out: &mut Vec<char>, args: &Vec<(String, String)>)
    ensures
        final(out)@ == old(out)@ + json::enc_obj(
            args@.map_values(|p: (String, String)| (p.0@, p.1@)),
        ),
{
    let ghost av = args@.map_values(|p: (String, String)| (p.0@, p.1@));
    out.push('{');
    let mut i: usize = 0;
    proof {
        assert(av.take(0) =~= Seq::<(Seq<char>, Seq<char>)>::empty());
    }
    while i < args.len()
        invariant
            i <= args@.len(),
            av == args@.map_values(|p: (String, String)| (p.0@, p.1@)),
            out@ == old(out)@ + seq!['{'] + json::enc_pairs(av.take(i as int)),
        decreases args@.len() - i,
    {
        if i > 0 {
            out.push(',');
        }
        let k = text::string_to_chars(args[i].0.as_str());
        json::emit_jstr(out, &k);
        out.push(':');
        let v = text::string_to_chars(args[i].1.as_str());
        json::emit_jstr(out, &v);
        proof {
            assert(av[i as int] == (args@[i as int].0@, args@[i as int].1@));
            json::lemma_enc_pairs_snoc(av.take(i as int), av[i as int]);
            assert(av.take(i + 1) =~= av.take(i as int).push(av[i as int]));
            assert(json::enc_pair(av[i as int]) == json::jstr(k@) + seq![':'] + json::jstr(v@));
            assert(out@ =~= old(out)@ + seq!['{'] + json::enc_pairs(av.take(i + 1)));
        }
        i += 1;
    }
    assert(av.take(args@.len() as int) =~= av);
    out.push('}');
    assert(final(out)@ =~= old(out)@ + json::enc_obj(av));
}

/// Encode a response as its canonical JSON text.
pub fn encode_response(r: &Response) -> (out: String)
    ensures
        out@ == spec_encode_response(r@),
{
    let mut out: Vec<char> = Vec::new();
    out.push('{');
    let ks: Vec<char> = vec!['s', 't', 'a', 't', 'u', 's'];
    assert(ks@ =~= key_status());
    json::emit_jstr(&mut out, &ks);
    out.push(':');
    if r.status {
        out.push('t');
        out.push('r');
        out.push('u');
        out.push('e');
    } else {
        out.push('f');
        out.push('a');
        out.push('l');
        out.push('s');
        out.push('e');
    }
    out.push(',');
    let km: Vec<char> = vec!['m', 'e', 's', 's', 'a', 'g', 'e'];
    assert(km@ =~= key_message());
    json::emit_jstr(&mut out, &km);
    out.push(':');
    let msg = text::string_to_chars(r.message.as_str());
    json::emit_jstr(&mut out, &msg);
    out.push('}');
    assert(out@ =~= spec_encode_response(r@));
    text::chars_to_string(&out)
}

/// Decode the canonical JSON text of a request, whole: `name` then
/// `args`, no surrounding whitespace; all JSON string escapes read.
pub fn decode_request(s: &str) -> (r: Option<Request>)
    ensures
        match r {
            Some(req) => spec_decode_request(s@) == Some(req@),
            None => spec_decode_request(s@) is None,
        },
{
    let cs = text::string_to_chars(s);
    let ghost v = s@;
    if cs.len() == 0 {
        return None;
    }
    if cs[0] != '{' {
        return None;
    }
    assert(v.drop_first() =~= v.skip(1));
    let (k1, j1) = match json::parse_jstr_at(&cs, 1) {
        Some(x) => x,
        None => {
            return None;
        },
    };
    let kn: Vec<char> = vec!['n', 'a', 'm', 'e'];
    assert(kn@ =~= key_name());
    if !chars_eq(&k1, &kn) {
        return None;
    }
    if j1 == cs.len() {
        return None;
    }
    assert(v.skip(j1 as int)[0] == v[j1 as int]);
    if cs[j1] != ':' {
        return None;
    }
    assert(v.skip(j1 as int).drop_first() =~= v.skip(j1 + 1));
    let (nm, j2) = match json::parse_jstr_at(&cs, j1 + 1) {
        Some(x) => x,
        None => {
            return None;
        },
    };
    if j2 == cs.len() {
        return None;
    }
    assert(v.skip(j2 as int)[0] == v[j2 as int]);
    if cs[j2] != ',' {
        return None;
    }
    assert(v.skip(j2 as int).drop_first() =~= v.skip(j2 + 1));
    let (k2, j3) = match json::parse_jstr_at(&cs, j2 + 1) {
        Some(x) => x,
        None => {
            return None;
        },
    };
    let ka: Vec<char> = vec!['a', 'r', 'g', 's'];
    assert(ka@ =~= key_args());
    if !chars_eq(&k2, &ka) {
        return None;
    }
    if j3 == cs.len() {
        return None;
    }
    assert(v.skip(j3 as int)[0] == v[j3 as int]);
    if cs[j3] != ':' {
        return None;
    }
    assert(v.skip(j3 as int).drop_first() =~= v.skip(j3 + 1));
    let (args, j4) = match json::parse_obj_at(&cs, j3 + 1) {
        Some(x) => x,
        None => {
            return None;
        },
    };
    if cs.len() - j4 != 1 {
        assert(v.skip(j4 as int) != seq!['}']) by {
            assert(v.skip(j4 as int).len() != 1);
        }
        return None;
    }
    assert(v.skip(j4 as int)[0] == v[j4 as int]);
    if cs[j4] != '}' {
        assert(v.skip(j4 as int) != seq!['}']) by {
            assert(seq!['}'][0] == '}');
        }
        return None;
    }
    assert(v.skip(j4 as int) =~= seq!['}']);
    let name = text::chars_to_string(&nm);
    let req = Request { name, args };
    assert(spec_decode_request(s@) == Some(req@));
    Some(req)
}

/// Character-for-character equality of two character vectors.
fn chars_eq(a: &Vec<char>, b: &Vec<char>) -> (r: bool)
    ensures
        r == (a@ == b@),
{
    if a.len() != b.len() {
        assert(a@ != b@);
        return false;
    }
    let mut i: usize = 0;
    while i < a.len()
        invariant
            i <= a@.len(),
            a@.len() == b@.len(),
            forall|k: int| 0 <= k < i ==> a@[k] == b@[k],
        decreases a@.len() - i,
    {
        if a[i] != b[i] {
            return false;
        }
        i += 1;
    }
    assert(a@ =~= b@);
    true
}

/// Decode the canonical JSON text of a response, whole: `status` then
/// `message`, no surrounding whitespace; all JSON string escapes read.
pub fn decode_response(s: &str) -> (r: Option<Response>)
    ensures
        match r {
            Some(resp) => spec_decode_response(s@) == Some(resp@),
            None => spec_decode_response(s@) is None,
        },
{
    let cs = text::string_to_chars(s);
    let ghost v = s@;
    if cs.len() == 0 {
        return None;
    }
    if cs[0] != '{' {
        return None;
    }
    assert(v.drop_first() =~= v.skip(1));
    let (k1, j1) = match json::parse_jstr_at(&cs, 1) {
        Some(x) => x,
        None => {
            return None;
        },
    };
    let ks: Vec<char> = vec!['s', 't', 'a', 't', 'u', 's'];
    assert(ks@ =~= key_status());
    if !chars_eq(&k1, &ks) {
        return None;
    }
    if j1 == cs.len() {
        return None;
    }
    assert(v.skip(j1 as int)[0] == v[j1 as int]);
    if cs[j1] != ':' {
        return None;
    }
    assert(v.skip(j1 as int).drop_first() =~= v.skip(j1 + 1));
    let (status, j2) = match parse_bool_at(&cs, j1 + 1) {
        Some(x) => x,
        None => {
            return None;
        },
    };
    if j2 == cs.len() {
        return None;
    }
    assert(v.skip(j2 as int)[0] == v[j2 as int]);
    if cs[j2] != ',' {
        return None;
    }
    assert(v.skip(j2 as int).drop_first() =~= v.skip(j2 + 1));
    let (k2, j3) = match json::parse_jstr_at(&cs, j2 + 1) {
        Some(x) => x,
        None => {
            return None;
        },
    };
    let km: Vec<char> = vec!['m', 'e', 's', 's', 'a', 'g', 'e'];
    assert(km@ =~= key_message());
    if !chars_eq(&k2, &km) {
        return None;
    }
    if j3 == cs.len() {
        return None;
    }
    assert(v.skip(j3 as int)[0] == v[j3 as int]);
    if cs[j3] != ':' {
        return None;
    }
    assert(v.skip(j3 as int).drop_first() =~= v.skip(j3 + 1));
    let (msg, j4) = match json::parse_jstr_at(&cs, j3 + 1) {
        Some(x) => x,
        None => {
            return None;
        },
    };
    if cs.len() - j4 != 1 {
        assert(v.skip(j4 as int) != seq!['}']) by {
            assert(v.skip(j4 as int).len() != 1);
        }
        return None;
    }
    assert(v.skip(j4 as int)[0] == v[j4 as int]);
    if cs[j4] != '}' {
        assert(v.skip(j4 as int) != seq!['}']) by {
            assert(seq!['}'][0] == '}');
        }
        return None;
    }
    assert(v.skip(j4 as int) =~= seq!['}']);
    let message = text::chars_to_string(&msg);
    let resp = Response { status, message };
    assert(spec_decode_response(s@) == Some(resp@));
    Some(resp)
}

/// Parse a bare `true` or `false` at position `i`.
fn parse_bool_at(cs: &Vec<char>, i: usize) -> (r: Option<(bool, usize)>)
    requires
        i <= cs@.len(),
    ensures
        match r {
            Some((b, j)) => i <= j <= cs@.len() && parse_bool_lit(cs@.skip(i as int)) == Some(
                (b, cs@.skip(j as int)),
            ),
            None => parse_bool_lit(cs@.skip(i as int)) is None,
        },
{
    let ghost v = cs@.skip(i as int);
    assert(forall|m: int| 0 <= m < v.len() ==> v[m] == cs@[i + m]);
    if cs.len() - i >= 4 && cs[i] == 't' && cs[i + 1] == 'r' && cs[i + 2] == 'u' && cs[i + 3]
        == 'e' {
        assert(v.take(4) =~= bool_lit(true));
        assert(v.skip(4) =~= cs@.skip(i + 4));
        return Some((true, i + 4));
    }
    if cs.len() - i >= 5 && cs[i] == 'f' && cs[i + 1] == 'a' && cs[i + 2] == 'l' && cs[i + 3]
        == 's' && cs[i + 4] == 'e' {
        assert(v.take(5) =~= bool_lit(false));
        assert(v.skip(5) =~= cs@.skip(i + 5));
        assert(v.len() >= 4 && v.take(4) != bool_lit(true)) by {
            assert(v.take(4)[0] == 'f');
        }
        return Some((false, i + 5));
    }
    proof {
        if v.len() >= 4 && v.take(4) == bool_lit(true) {
            assert(v[0] == 't' && v[1] == 'r' && v[2] == 'u' && v[3] == 'e') by {
                assert(v.take(4)[0] == v[0] && v.take(4)[1] == v[1] && v.take(4)[2] == v[2]
                    && v.take(4)[3] == v[3]);
            }
            assert(false);
        }
        if v.len() >= 5 && v.take(5) == bool_lit(false) {
            assert(v[0] == 'f' && v[1] == 'a' && v[2] == 'l' && v[3] == 's' && v[4] == 'e') by {
                assert(v.take(5)[0] == v[0] && v.take(5)[1] == v[1] && v.take(5)[2] == v[2]
                    && v.take(5)[3] == v[3] && v.take(5)[4] == v[4]);
            }
            assert(false);
        }
    }
    None
}

} // verus!
