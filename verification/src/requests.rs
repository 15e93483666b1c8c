use crate::config::Config;
use crate::records::{hex4, hex_val, parse_string, parse_string_body};
use crate::text::{char_from_u32, chars_to_string, chars_vec};
use vstd::prelude::*;
use vstd::string::StringExecFns;
use vstd::utf8::{char_u32_cast, is_scalar};

verus! {

// One outbound conversational request. On the wire it is a single JSON
// object; the `context` member is written only when a prior context token
// exists — its absence, not an empty list, is what marks a fresh
// conversation.

/// One conversational request to the generation endpoint.
pub struct OllamaRequest {
    pub model: String,
    pub prompt: String,
    pub system: String,
    pub context: Option<Vec<i32>>,
    pub stream: bool,
}

/// The mathematical model of a request.
pub struct SpecRequest {
    pub model: Seq<char>,
    pub prompt: Seq<char>,
    pub system: Seq<char>,
    pub context: Option<Seq<i32>>,
    pub stream: bool,
}

impl View for OllamaRequest {
    type V = SpecRequest;

    open spec fn view(&self) -> SpecRequest {
        SpecRequest {
            model: self.model@,
            prompt: self.prompt@,
            system: self.system@,
            context: match self.context {
                Some(ref c) => Some(c@),
                None => None,
            },
            stream: self.stream,
        }
    }
}

/// Copies a context token.
pub fn copy_context(v: &Vec<i32>) -> (out: Vec<i32>)
    ensures
        out@ == v@,
{
    let mut out: Vec<i32> = Vec::new();
    proof {
        assert(out@ =~= v@.subrange(0, 0));
    }
    let mut k: usize = 0;
    while k < v.len()
        invariant
            0 <= k <= v.len(),
            out@ == v@.subrange(0, k as int),
        decreases v.len() - k,
    {
        out.push(v[k]);
        proof {
            assert(v@.subrange(0, k as int).push(v@[k as int]) =~= v@.subrange(0, k as int + 1));
        }
        k += 1;
    }
    proof {
        assert(out@ =~= v@);
    }
    out
}

/// The opening request of a conversation: no context member at all.
pub fn generate_first_request(body: &str, config: &Config) -> (r: OllamaRequest)
    ensures
        r@.model == config.model@,
        r@.prompt == body@,
        r@.system == config.prompt@,
        r@.context is None,
        r@.stream,
{
    OllamaRequest {
        model: config.model.clone(),
        prompt: String::from_str(body),
        system: config.prompt.clone(),
        context: None,
        stream: true,
    }
}

/// A continuation request: carries the prior context token unchanged.
pub fn generate_request(body: &str, config: &Config, context: &Vec<i32>) -> (r: OllamaRequest)
    ensures
        r@.model == config.model@,
        r@.prompt == body@,
        r@.system == config.prompt@,
        r@.context == Some(context@),
        r@.stream,
{
    OllamaRequest {
        model: config.model.clone(),
        prompt: String::from_str(body),
        system: config.prompt.clone(),
        context: Some(copy_context(context)),
        stream: true,
    }
}

/// The endpoint a request is posted to, under the configured base URL.
pub fn request_url(base: &str) -> (r: String)
    ensures
        r@ == base@ + "/api/generate"@,
{
    let mut out = String::from_str(base);
    out.append("/api/generate");
    out
}

// ---------- serialization ----------

/// The lower-case hexadecimal digit of `n`.
pub open spec fn hex_digit(n: int) -> char {
    if n < 10 {
        ((48 + n) as u32) as char
    } else {
        ((87 + n) as u32) as char
    }
}

/// How one character is written inside a JSON string literal.
pub open spec fn esc_char(c: char) -> Seq<char> {
    if c == '"' {
        seq!['\\', '"']
    } else if c == '\\' {
        seq!['\\', '\\']
    } else if c == '\x08' {
        seq!['\\', 'b']
    } else if c == '\x0C' {
        seq!['\\', 'f']
    } else if c == '\n' {
        seq!['\\', 'n']
    } else if c == '\r' {
        seq!['\\', 'r']
    } else if c == '\t' {
        seq!['\\', 't']
    } else if (c as u32) < 0x20 {
        seq!['\\', 'u', '0', '0', hex_digit((c as u32 / 16) as int), hex_digit((c as u32 % 16) as int)]
    } else {
        seq![c]
    }
}

/// A text as it is written inside a JSON string literal.
pub open spec fn json_escape(s: Seq<char>) -> Seq<char>
    decreases s.len(),
{
    if s.len() == 0 {
        Seq::empty()
    } else {
        esc_char(s[0]) + json_escape(s.drop_first())
    }
}

pub proof fn lemma_escape_push(s: Seq<char>, c: char)
    ensures
        json_escape(s.push(c)) == json_escape(s) + esc_char(c),
    decreases s.len(),
{
    if s.len() == 0 {
        assert(s.push(c)[0] == c);
        assert(s.push(c).drop_first() =~= s);
        assert(esc_char(c) + json_escape(s) =~= esc_char(c));
        assert(json_escape(s) + esc_char(c) =~= esc_char(c));
    } else {
        assert(s.push(c)[0] == s[0]);
        assert(s.push(c).drop_first() =~= s.drop_first().push(c));
        lemma_escape_push(s.drop_first(), c);
        assert(esc_char(s[0]) + (json_escape(s.drop_first()) + esc_char(c)) =~= (esc_char(s[0])
            + json_escape(s.drop_first())) + esc_char(c));
    }
}

/// The decimal digits of `n`.
pub open spec fn dec_u(n: nat) -> Seq<char>
    decreases n,
{
    if n < 10 {
        seq![hex_digit(n as int)]
    } else {
        dec_u(n / 10) + seq![hex_digit((n % 10) as int)]
    }
}

/// A signed integer as JSON writes it.
pub open spec fn json_i32(n: int) -> Seq<char> {
    if n < 0 {
        seq!['-'] + dec_u((-n) as nat)
    } else {
        dec_u(n as nat)
    }
}

/// The comma-separated elements of a context array.
pub open spec fn json_ctx_body(ctx: Seq<i32>) -> Seq<char>
    decreases ctx.len(),
{
    if ctx.len() == 0 {
        Seq::empty()
    } else if ctx.len() == 1 {
        json_i32(ctx[0] as int)
    } else {
        json_ctx_body(ctx.drop_last()) + seq![','] + json_i32(ctx.last() as int)
    }
}

/// A context token as JSON writes it.
pub open spec fn json_ctx(ctx: Seq<i32>) -> Seq<char> {
    seq!['['] + json_ctx_body(ctx) + seq![']']
}

/// The context member of the wire object: written only when a prior
/// context exists, omitted entirely otherwise.
pub open spec fn context_member(c: Option<Seq<i32>>) -> Seq<char> {
    match c {
        None => Seq::empty(),
        Some(ctx) => ",\"context\":"@ + json_ctx(ctx),
    }
}

/// The whole wire body of a request.
pub open spec fn request_json(r: SpecRequest) -> Seq<char> {
    "{\"model\":\""@ + json_escape(r.model) + "\",\"prompt\":\""@ + json_escape(r.prompt)
        + "\",\"system\":\""@ + json_escape(r.system) + "\""@ + context_member(r.context)
        + ",\"stream\":"@ + (if r.stream {
        "true"@
    } else {
        "false"@
    }) + "}"@
}

fn hex_digit_e(n: u32) -> (c: char)
    requires
        n < 16,
    ensures
        c == hex_digit(n as int),
{
    let u: u32 = if n < 10 {
        48 + n
    } else {
        87 + n
    };
    assert(is_scalar(u));
    let c = char_from_u32(u).unwrap();
    proof {
        char_u32_cast(c, u);
    }
    c
}

fn escape_chars(src: &Vec<char>) -> (out: Vec<char>)
    ensures
        out@ == json_escape(src@),
{
    let mut out: Vec<char> = Vec::new();
    proof {
        assert(src@.take(0) =~= Seq::<char>::empty());
        assert(out@ =~= Seq::<char>::empty());
    }
    let mut k: usize = 0;
    while k < src.len()
        invariant
            0 <= k <= src.len(),
            out@ == json_escape(src@.take(k as int)),
        decreases src.len() - k,
    {
        let c = src[k];
        proof {
            lemma_escape_push(src@.take(k as int), src@[k as int]);
            assert(src@.take(k as int + 1) =~= src@.take(k as int).push(src@[k as int]));
        }
        if c == '"' {
            out.push('\\');
            out.push('"');
        } else if c == '\\' {
            out.push('\\');
            out.push('\\');
        } else if c == '\x08' {
            out.push('\\');
            out.push('b');
        } else if c == '\x0C' {
            out.push('\\');
            out.push('f');
        } else if c == '\n' {
            out.push('\\');
            out.push('n');
        } else if c == '\r' {
            out.push('\\');
            out.push('r');
        } else if c == '\t' {
            out.push('\\');
            out.push('t');
        } else if (c as u32) < 0x20 {
            out.push('\\');
            out.push('u');
            out.push('0');
            out.push('0');
            out.push(hex_digit_e((c as u32) / 16));
            out.push(hex_digit_e((c as u32) % 16));
        } else {
            out.push(c);
        }
        proof {
            assert(out@ =~= json_escape(src@.take(k as int)) + esc_char(src@[k as int]));
            assert(json_escape(src@.take(k as int + 1)) =~= json_escape(src@.take(k as int))
                + esc_char(src@[k as int]));
        }
        k += 1;
    }
    proof {
        assert(src@.take(src@.len() as int) =~= src@);
    }
    out
}

fn dec_u_e(n: u32) -> (out: Vec<char>)
    ensures
        out@ == dec_u(n as nat),
    decreases n,
{
    if n < 10 {
        let mut out: Vec<char> = Vec::new();
        out.push(hex_digit_e(n));
        proof {
            assert(out@ =~= seq![hex_digit(n as int)]);
        }
        out
    } else {
        let mut out = dec_u_e(n / 10);
        out.push(hex_digit_e(n % 10));
        proof {
            assert((n as nat) / 10 == (n / 10) as nat);
            assert((n as nat) % 10 == (n % 10) as nat);
            assert(dec_u((n / 10) as nat).push(hex_digit((n % 10) as int)) =~= dec_u(
                (n / 10) as nat,
            ) + seq![hex_digit((n % 10) as int)]);
        }
        out
    }
}

fn json_i32_e(n: i32) -> (out: Vec<char>)
    ensures
        out@ == json_i32(n as int),
{
    if n < 0 {
        let mag: u32 = (-(n as i64)) as u32;
        let mut out: Vec<char> = Vec::new();
        out.push('-');
        let mut digits = dec_u_e(mag);
        out.append(&mut digits);
        proof {
            assert(out@ =~= seq!['-'] + dec_u(mag as nat));
        }
        out
    } else {
        dec_u_e(n as u32)
    }
}

fn json_ctx_e(ctx: &Vec<i32>) -> (out: Vec<char>)
    ensures
        out@ == json_ctx(ctx@),
{
    let mut out: Vec<char> = Vec::new();
    out.push('[');
    proof {
        assert(ctx@.take(0) =~= Seq::<i32>::empty());
        assert(out@ =~= seq!['['] + json_ctx_body(ctx@.take(0)));
    }
    let mut k: usize = 0;
    while k < ctx.len()
        invariant
            0 <= k <= ctx.len(),
            out@ == seq!['['] + json_ctx_body(ctx@.take(k as int)),
        decreases ctx.len() - k,
    {
        if k > 0 {
            out.push(',');
        }
        let mut digits = json_i32_e(ctx[k]);
        out.append(&mut digits);
        proof {
            let t1 = ctx@.take(k as int + 1);
            assert(t1.drop_last() =~= ctx@.take(k as int));
            assert(t1.last() == ctx@[k as int]);
            if k == 0 {
                assert(json_ctx_body(t1) == json_i32(ctx@[0] as int));
                assert(out@ =~= seq!['['] + json_ctx_body(t1));
            } else {
                assert(json_ctx_body(t1) == json_ctx_body(ctx@.take(k as int)) + seq![',']
                    + json_i32(ctx@[k as int] as int));
                assert(out@ =~= seq!['['] + json_ctx_body(t1));
            }
        }
        k += 1;
    }
    out.push(']');
    proof {
        assert(ctx@.take(ctx@.len() as int) =~= ctx@);
        assert(out@ =~= json_ctx(ctx@));
    }
    out
}

fn append_escaped(out: &mut String, s: &String)
    ensures
        final(out)@ == old(out)@ + json_escape(s@),
{
    let cs = chars_vec(s.as_str());
    let esc = escape_chars(&cs);
    let es = chars_to_string(&esc);
    out.append(es.as_str());
}

/// Writes a request as its wire body. The context member appears exactly
/// when a prior context token is present.
pub fn serialize_request(req: &OllamaRequest) -> (s: String)
    ensures
        s@ == request_json(req@),
{
    let mut out = String::from_str("{\"model\":\"");
    append_escaped(&mut out, &req.model);
    out.append("\",\"prompt\":\"");
    append_escaped(&mut out, &req.prompt);
    out.append("\",\"system\":\"");
    append_escaped(&mut out, &req.system);
    out.append("\"");
    match &req.context {
        None => {
        },
        Some(ctx) => {
            out.append(",\"context\":");
            let cv = json_ctx_e(ctx);
            let cs = chars_to_string(&cv);
            out.append(cs.as_str());
        },
    }
    out.append(",\"stream\":");
    if req.stream {
        out.append("true");
    } else {
        out.append("false");
    }
    out.append("}");
    proof {
        assert(out@ =~= request_json(req@));
    }
    out
}

// ---------- the laws ----------

/// Relates the serializer's digits to the parser's: writing a hexadecimal
/// digit and reading it back gives the same value.
pub proof fn lemma_hex_digit_val(n: int)
    requires
        0 <= n < 16,
    ensures
        hex_val(hex_digit(n)) == n,
{
}

/// One parser step over one written character: the reader consumes exactly
/// the escape the writer produced and decodes the character back.
proof fn lemma_escape_step(w: Seq<char>, i: int, c: char, acc: Seq<char>)
    requires
        0 <= i,
        i + esc_char(c).len() <= w.len(),
        forall|t: int| 0 <= t < esc_char(c).len() ==> #[trigger] w[i + t] == esc_char(c)[t],
    ensures
        parse_string_body(w, i, acc) == parse_string_body(w, i + esc_char(c).len(), acc.push(c)),
{
    let e = esc_char(c);
    let cu = c as u32;
    assert(w[i + 0] == e[0]);
    if c == '"' || c == '\\' || c == '\x08' || c == '\x0C' || c == '\n' || c == '\r' || c == '\t' {
        assert(w[i + 1] == e[1]);
    } else if cu < 0x20 {
        assert(w[i + 1] == e[1]);
        assert(w[i + 2] == e[2]);
        assert(w[i + 3] == e[3]);
        assert(w[i + 4] == e[4]);
        assert(w[i + 5] == e[5]);
        lemma_hex_digit_val((cu / 16) as int);
        lemma_hex_digit_val((cu % 16) as int);
        assert(hex_val('0') == 0);
        assert(hex4(w, i + 2) == cu);
        char_u32_cast(c, cu);
    } else {
    }
}

/// The induction behind the round trip: a text written as a JSON string
/// literal, followed by the closing quote, is decoded back to exactly
/// itself by the record parser's string reader.
pub proof fn lemma_escape_roundtrip(w: Seq<char>, i: int, s: Seq<char>, acc: Seq<char>)
    requires
        0 <= i,
        i + json_escape(s).len() + 1 <= w.len(),
        w.subrange(i, i + json_escape(s).len() + 1) == json_escape(s) + seq!['"'],
    ensures
        parse_string_body(w, i, acc) == Some((acc + s, i + json_escape(s).len() + 1)),
    decreases s.len(),
{
    let ee = json_escape(s);
    let sub = w.subrange(i, i + ee.len() + 1);
    assert forall|t: int| 0 <= t <= ee.len() implies #[trigger] w[i + t] == (ee + seq!['"'])[t] by {
        assert(sub[t] == w[i + t]);
    }
    if s.len() == 0 {
        assert(ee =~= Seq::<char>::empty());
        assert(w[i + 0] == '"');
        assert(acc + s =~= acc);
    } else {
        let c = s[0];
        let e = esc_char(c);
        let s2 = s.drop_first();
        let e2 = json_escape(s2);
        assert(ee == e + e2);
        assert forall|t: int| 0 <= t < e.len() implies #[trigger] w[i + t] == e[t] by {
            assert(w[i + t] == (ee + seq!['"'])[t]);
        }
        lemma_escape_step(w, i, c, acc);
        let i2 = i + e.len();
        assert forall|t: int| 0 <= t <= e2.len() implies w.subrange(i2, i2 + e2.len() + 1)[t] == (
        e2 + seq!['"'])[t] by {
            assert(w.subrange(i2, i2 + e2.len() + 1)[t] == w[i2 + t]);
            assert(w[i + (e.len() + t)] == (ee + seq!['"'])[e.len() + t]);
        }
        assert(w.subrange(i2, i2 + e2.len() + 1) =~= e2 + seq!['"']);
        lemma_escape_roundtrip(w, i2, s2, acc.push(c));
        assert(acc.push(c) + s2 =~= acc + s);
    }
}

/// Law: round trip through the wire. Any text the serializer writes as a
/// JSON string literal — a prompt, a system prompt, a model name — is read
/// back to exactly that text by the record parser's string reader.
pub proof fn lemma_string_roundtrip(s: Seq<char>)
    ensures
        parse_string(seq!['"'] + json_escape(s) + seq!['"'], 0) == Some(
            (s, json_escape(s).len() as int + 2),
        ),
{
    let w = seq!['"'] + json_escape(s) + seq!['"'];
    assert(w[0] == '"');
    assert(w.subrange(1, json_escape(s).len() as int + 2) =~= json_escape(s) + seq!['"']);
    lemma_escape_roundtrip(w, 1, s, Seq::empty());
    assert(Seq::<char>::empty() + s =~= s);
}

/// Law: a missing prior context is omitted from the wire body outright —
/// the body is exactly the one of the same request with no context member,
/// and differs from the body carrying an empty context array. Absence and
/// emptiness stay distinguishable downstream.
pub proof fn lemma_absent_vs_empty_context(r1: SpecRequest, r2: SpecRequest)
    requires
        r1.context is None,
        r2.context == Some(Seq::<i32>::empty()),
        r1.model == r2.model,
        r1.prompt == r2.prompt,
        r1.system == r2.system,
        r1.stream == r2.stream,
    ensures
        context_member(r1.context) == Seq::<char>::empty(),
        request_json(r1) != request_json(r2),
{
    reveal_strlit(",\"context\":");
    assert(json_ctx_body(Seq::<i32>::empty()) == Seq::<char>::empty());
    assert(json_ctx(Seq::<i32>::empty()).len() == 2);
    assert(context_member(r2.context).len() == 13);
    assert(request_json(r2).len() == request_json(r1).len() + 13);
}

} // verus!
