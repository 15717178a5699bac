//! The text wire protocol of the real-time connection: the one-shot
//! handshake frame, its fixed acknowledgement, the command frame with its
//! optional raw parameter, and the subscription-update parameter.
//!
//! Each frame shape is given by a spec-level parser over the frame's
//! character sequence; the executable parsers return exactly what the
//! spec parsers denote.
use crate::text::{digits_to_i32, digits_val, is_digit_char};
use vstd::prelude::*;

verus! {

/// `p` is a prefix of `s`.
pub open spec fn starts_with(s: Seq<char>, p: Seq<char>) -> bool {
    p.len() <= s.len() && s.subrange(0, p.len() as int) == p
}

/// A character that may stand inside a quoted string of a frame: anything
/// but the closing quote, the escape character and control characters.
pub open spec fn is_text_char(c: char) -> bool {
    c != '"' && c != '\\' && c as u32 >= 32
}

/// Length of the longest prefix of `s` made of decimal digits.
pub open spec fn digit_run(s: Seq<char>) -> nat
    decreases s.len(),
{
    if s.len() > 0 && is_digit_char(s[0]) {
        1 + digit_run(s.skip(1))
    } else {
        0
    }
}

/// Length of the longest prefix of `s` made of quoted-string characters.
pub open spec fn text_run(s: Seq<char>) -> nat
    decreases s.len(),
{
    if s.len() > 0 && is_text_char(s[0]) {
        1 + text_run(s.skip(1))
    } else {
        0
    }
}

/// A run is never longer than the sequence it is a prefix of.
pub proof fn lemma_digit_run_le(s: Seq<char>)
    ensures
        digit_run(s) <= s.len(),
    decreases s.len(),
{
    if s.len() > 0 && is_digit_char(s[0]) {
        lemma_digit_run_le(s.skip(1));
    }
}

proof fn lemma_digit_run_is(s: Seq<char>, k: nat)
    requires
        k <= s.len(),
        forall|i: int| 0 <= i < k ==> is_digit_char(s[i]),
        k == s.len() || !is_digit_char(s[k as int]),
    ensures
        digit_run(s) == k,
    decreases k,
{
    if k == 0 {
    } else {
        assert(is_digit_char(s[0]));
        assert forall|i: int| 0 <= i < k - 1 implies is_digit_char(s.skip(1)[i]) by {
            assert(s.skip(1)[i] == s[i + 1]);
        }
        lemma_digit_run_is(s.skip(1), (k - 1) as nat);
    }
}

proof fn lemma_text_run_is(s: Seq<char>, k: nat)
    requires
        k <= s.len(),
        forall|i: int| 0 <= i < k ==> is_text_char(s[i]),
        k == s.len() || !is_text_char(s[k as int]),
    ensures
        text_run(s) == k,
    decreases k,
{
    if k == 0 {
    } else {
        assert(is_text_char(s[0]));
        assert forall|i: int| 0 <= i < k - 1 implies is_text_char(s.skip(1)[i]) by {
            assert(s.skip(1)[i] == s[i + 1]);
        }
        lemma_text_run_is(s.skip(1), (k - 1) as nat);
    }
}

/// Whether the characters of `pat` stand in `s` at position `pos`.
/// `n` and `m` are the character counts of `s` and `pat`.
fn match_at(s: &str, n: usize, pos: usize, pat: &str, m: usize) -> (r: bool)
    requires
        n == s@.len(),
        m == pat@.len(),
        pos <= n,
    ensures
        r == (pos + m <= n && s@.subrange(pos as int, pos + m) == pat@),
{
    if m > n - pos {
        return false;
    }
    let mut j: usize = 0;
    while j < m
        invariant
            j <= m,
            pos + m <= n,
            n == s@.len(),
            m == pat@.len(),
            forall|t: int| 0 <= t < j ==> s@[pos + t] == pat@[t],
        decreases m - j,
    {
        if s.get_char(pos + j) != pat.get_char(j) {
            proof {
                assert(s@[pos + j] != pat@[j as int]);
                if s@.subrange(pos as int, pos + m) == pat@ {
                    assert(s@.subrange(pos as int, pos + m)[j as int] == pat@[j as int]);
                }
            }
            return false;
        }
        j = j + 1;
    }
    proof {
        assert(s@.subrange(pos as int, pos + m) =~= pat@);
    }
    true
}

/// Length of the run of decimal digits in `s` starting at `from`.
fn scan_digits(s: &str, n: usize, from: usize) -> (r: usize)
    requires
        n == s@.len(),
        from <= n,
    ensures
        from + r <= n,
        forall|t: int| from <= t < from + r ==> is_digit_char(s@[t]),
        from + r == n || !is_digit_char(s@[from + r]),
        r == digit_run(s@.skip(from as int)),
{
    let mut i: usize = from;
    loop
        invariant_except_break
            from <= i <= n,
            n == s@.len(),
            forall|t: int| from <= t < i ==> is_digit_char(s@[t]),
        ensures
            from <= i <= n,
            n == s@.len(),
            forall|t: int| from <= t < i ==> is_digit_char(s@[t]),
            i == n || !is_digit_char(s@[i as int]),
        decreases n - i,
    {
        if i == n {
            break;
        }
        let c = s.get_char(i);
        let u = c as u32;
        if !(48 <= u && u <= 57) {
            break;
        }
        i = i + 1;
    }
    proof {
        assert forall|t: int| 0 <= t < i - from implies is_digit_char(
            s@.skip(from as int)[t],
        ) by {
            assert(s@.skip(from as int)[t] == s@[t + from]);
        }
        if i < n {
            assert(s@.skip(from as int)[i - from] == s@[i as int]);
        }
        lemma_digit_run_is(s@.skip(from as int), (i - from) as nat);
    }
    i - from
}

/// Length of the run of quoted-string characters in `s` starting at `from`.
fn scan_text(s: &str, n: usize, from: usize) -> (r: usize)
    requires
        n == s@.len(),
        from <= n,
    ensures
        from + r <= n,
        forall|t: int| from <= t < from + r ==> is_text_char(s@[t]),
        from + r == n || !is_text_char(s@[from + r]),
        r == text_run(s@.skip(from as int)),
{
    let mut i: usize = from;
    loop
        invariant_except_break
            from <= i <= n,
            n == s@.len(),
            forall|t: int| from <= t < i ==> is_text_char(s@[t]),
        ensures
            from <= i <= n,
            n == s@.len(),
            forall|t: int| from <= t < i ==> is_text_char(s@[t]),
            i == n || !is_text_char(s@[i as int]),
        decreases n - i,
    {
        if i == n {
            break;
        }
        let c = s.get_char(i);
        if c == '"' || c == '\\' || (c as u32) < 32 {
            break;
        }
        i = i + 1;
    }
    proof {
        assert forall|t: int| 0 <= t < i - from implies is_text_char(s@.skip(from as int)[t]) by {
            assert(s@.skip(from as int)[t] == s@[t + from]);
        }
        if i < n {
            assert(s@.skip(from as int)[i - from] == s@[i as int]);
        }
        lemma_text_run_is(s@.skip(from as int), (i - from) as nat);
    }
    i - from
}

/// What a handshake frame denotes: the identity (carried as a decimal
/// string, optionally negative) and the client version. The frame must be
/// exactly `{"PlayerId":"<digits>","AppVersion":"<version>"}`; a frame is
/// refused when the digits are missing or the value does not fit an `i32`.
pub open spec fn spec_parse_handshake(s: Seq<char>) -> Option<(i32, Seq<char>)> {
    let head = "{\"PlayerId\":\""@;
    let mid = "\",\"AppVersion\":\""@;
    let tail = "\"}"@;
    if !starts_with(s, head) {
        None
    } else {
        let r1 = s.skip(head.len() as int);
        let neg = r1.len() > 0 && r1[0] == '-';
        let r2 = if neg {
            r1.skip(1)
        } else {
            r1
        };
        let dl = digit_run(r2);
        if dl == 0 {
            None
        } else {
            let v = digits_val(r2.take(dl as int));
            let sv: int = if neg {
                -v
            } else {
                v
            };
            let r3 = r2.skip(dl as int);
            if !starts_with(r3, mid) {
                None
            } else {
                let r4 = r3.skip(mid.len() as int);
                let vl = text_run(r4);
                let ver = r4.take(vl as int);
                let r5 = r4.skip(vl as int);
                if r5 != tail {
                    None
                } else if sv < i32::MIN || sv > i32::MAX {
                    None
                } else {
                    Some((sv as i32, ver))
                }
            }
        }
    }
}

/// Parses the one-shot handshake frame into the asserted identity and the
/// client version string.
#[verifier::rlimit(60)]
pub fn parse_handshake(frame: &str) -> (r: Option<(i32, String)>)
    ensures
        r is Some <==> spec_parse_handshake(frame@) is Some,
        r matches Some(p) ==> spec_parse_handshake(frame@) matches Some(q) && p.0 == q.0 && p.1@
            == q.1,
{
    let head = "{\"PlayerId\":\"";
    let mid = "\",\"AppVersion\":\"";
    let tail = "\"}";
    let n = frame.unicode_len();
    let hl = head.unicode_len();
    let ghost sv = frame@;
    if !match_at(frame, n, 0, head, hl) {
        proof {
            assert(!starts_with(sv, head@)) by {
                if starts_with(sv, head@) {
                    assert(sv.subrange(0, hl as int) == head@);
                }
            }
        }
        return None;
    }
    proof {
        assert(starts_with(sv, head@));
    }
    let neg = hl < n && frame.get_char(hl) == '-';
    let dstart: usize = if neg {
        hl + 1
    } else {
        hl
    };
    proof {
        let r1 = sv.skip(hl as int);
        if neg {
            assert(r1[0] == sv[hl as int]);
            assert(r1.skip(1) =~= sv.skip(dstart as int));
        } else {
            if r1.len() > 0 {
                assert(r1[0] == sv[hl as int]);
            }
        }
    }
    let dl = scan_digits(frame, n, dstart);
    if dl == 0 {
        return None;
    }
    let mstart = dstart + dl;
    let ml = mid.unicode_len();
    if !match_at(frame, n, mstart, mid, ml) {
        proof {
            let r3 = sv.skip(dstart as int).skip(dl as int);
            assert(r3 =~= sv.skip(mstart as int));
            assert(!starts_with(r3, mid@)) by {
                if starts_with(r3, mid@) {
                    assert(r3.subrange(0, ml as int) =~= sv.subrange(
                        mstart as int,
                        mstart + ml,
                    ));
                }
            }
        }
        return None;
    }
    proof {
        let r3 = sv.skip(dstart as int).skip(dl as int);
        assert(r3 =~= sv.skip(mstart as int));
        assert(r3.subrange(0, ml as int) =~= sv.subrange(mstart as int, mstart + ml));
        assert(starts_with(r3, mid@));
    }
    let vstart = mstart + ml;
    let vl = scan_text(frame, n, vstart);
    proof {
        let r4 = sv.skip(dstart as int).skip(dl as int).skip(ml as int);
        assert(r4 =~= sv.skip(vstart as int));
    }
    let tstart = vstart + vl;
    let tl = tail.unicode_len();
    if !(match_at(frame, n, tstart, tail, tl) && tstart + tl == n) {
        proof {
            let r5 = sv.skip(vstart as int).skip(vl as int);
            assert(r5 =~= sv.skip(tstart as int));
            assert(r5 != tail@) by {
                if r5 == tail@ {
                    assert(r5.len() == n - tstart);
                    assert(sv.subrange(tstart as int, tstart + tl) =~= r5.subrange(
                        0,
                        tl as int,
                    ));
                }
            }
        }
        return None;
    }
    proof {
        let r5 = sv.skip(vstart as int).skip(vl as int);
        assert(r5 =~= sv.skip(tstart as int));
        assert(r5 =~= tail@) by {
            assert(sv.subrange(tstart as int, tstart + tl) == tail@);
            assert(r5.len() == tl);
            assert forall|t: int| 0 <= t < tl implies r5[t] == sv.subrange(
                tstart as int,
                tstart + tl,
            )[t] by {
                assert(r5[t] == sv[tstart + t]);
            }
        }
        assert(sv.skip(dstart as int).take(dl as int) =~= sv.subrange(
            dstart as int,
            dstart + dl,
        ));
    }
    match digits_to_i32(frame, dstart, dstart + dl, neg) {
        None => None,
        Some(id) => {
            proof {
                let r4 = sv.skip(vstart as int);
                assert(r4.take(vl as int) =~= sv.subrange(vstart as int, vstart + vl));
            }
            let version = frame.substring_char(vstart, vstart + vl).to_owned();
            Some((id, version))
        },
    }
}

/// The fixed acknowledgement sent after a successful handshake.
pub fn ack_frame() -> (r: String)
    ensures
        r@ == "{\"SessionId\":567}"@,
{
    String::from_str("{\"SessionId\":567}")
}

/// An inbound real-time command: a string tag naming the api path, and an
/// optional parameter carried as raw text for the handler to parse.
pub struct ApiRequest {
    pub api: String,
    pub param: Option<String>,
}

/// What a command frame denotes: the api path and, if present, the raw
/// parameter text. The frame must be `{"api":"<path>"}` or
/// `{"api":"<path>","param":<raw>}` with non-empty raw text.
pub open spec fn spec_parse_api_request(s: Seq<char>) -> Option<(Seq<char>, Option<Seq<char>>)> {
    let head = "{\"api\":\""@;
    let mid = "\",\"param\":"@;
    let tail = "\"}"@;
    if !starts_with(s, head) {
        None
    } else {
        let r1 = s.skip(head.len() as int);
        let al = text_run(r1);
        let api = r1.take(al as int);
        let r2 = r1.skip(al as int);
        if r2 == tail {
            Some((api, None))
        } else if starts_with(r2, mid) {
            let raw = r2.skip(mid.len() as int);
            if raw.len() >= 2 && raw.last() == '}' {
                Some((api, Some(raw.drop_last())))
            } else {
                None
            }
        } else {
            None
        }
    }
}

/// Parses a command frame into its api path and raw parameter text.
#[verifier::rlimit(60)]
pub fn parse_api_request(frame: &str) -> (r: Option<ApiRequest>)
    ensures
        r is Some <==> spec_parse_api_request(frame@) is Some,
        r matches Some(a) ==> spec_parse_api_request(frame@) matches Some(q) && a.api@ == q.0 && (
        match (a.param, q.1) {
            (Some(p), Some(pq)) => p@ == pq,
            (None, None) => true,
            _ => false,
        }),
{
    let head = "{\"api\":\"";
    let mid = "\",\"param\":";
    let tail = "\"}";
    let n = frame.unicode_len();
    let hl = head.unicode_len();
    let ghost sv = frame@;
    if !match_at(frame, n, 0, head, hl) {
        proof {
            if starts_with(sv, head@) {
                assert(sv.subrange(0, hl as int) == head@);
            }
        }
        return None;
    }
    let al = scan_text(frame, n, hl);
    let e2 = hl + al;
    proof {
        let r1 = sv.skip(hl as int);
        assert(r1.skip(al as int) =~= sv.skip(e2 as int));
        assert(r1.take(al as int) =~= sv.subrange(hl as int, e2 as int));
        assert forall|t: int| 0 <= t < al implies is_text_char(r1[t]) by {
            assert(r1[t] == sv[hl + t]);
        }
        if al < r1.len() {
            assert(r1[al as int] == sv[e2 as int]);
        }
        lemma_text_run_is(r1, al as nat);
    }
    let tl = tail.unicode_len();
    let tail_here = match_at(frame, n, e2, tail, tl);
    proof {
        let r2 = sv.skip(e2 as int);
        if tail_here && e2 + tl == n {
            assert(r2 =~= sv.subrange(e2 as int, e2 + tl));
            assert(r2 == tail@);
        } else {
            if r2 == tail@ {
                assert(r2.len() == tl);
                assert(e2 + tl == n);
                assert(sv.subrange(e2 as int, e2 + tl) =~= r2);
            }
            assert(r2 != tail@);
        }
    }
    if tail_here && e2 + tl == n {
        let api = frame.substring_char(hl, e2).to_owned();
        return Some(ApiRequest { api, param: None });
    }
    let ml = mid.unicode_len();
    if !match_at(frame, n, e2, mid, ml) {
        proof {
            let r2 = sv.skip(e2 as int);
            if starts_with(r2, mid@) {
                assert(r2.subrange(0, ml as int) =~= sv.subrange(e2 as int, e2 + ml));
            }
        }
        return None;
    }
    proof {
        let r2 = sv.skip(e2 as int);
        assert(r2.subrange(0, ml as int) =~= sv.subrange(e2 as int, e2 + ml));
        assert(starts_with(r2, mid@));
    }
    let rstart = e2 + ml;
    if n - rstart >= 2 && frame.get_char(n - 1) == '}' {
        proof {
            let raw = sv.skip(e2 as int).skip(ml as int);
            assert(raw =~= sv.skip(rstart as int));
            assert(raw.last() == sv[n - 1]);
            assert(raw.drop_last() =~= sv.subrange(rstart as int, n - 1));
        }
        let api = frame.substring_char(hl, e2).to_owned();
        let param = frame.substring_char(rstart, n - 1).to_owned();
        Some(ApiRequest { api, param: Some(param) })
    } else {
        proof {
            let raw = sv.skip(e2 as int).skip(ml as int);
            assert(raw =~= sv.skip(rstart as int));
            if raw.len() >= 2 {
                assert(raw.last() == sv[n - 1]);
            }
        }
        None
    }
}

/// What the parameter of a subscription update denotes: the target
/// identities. The text must be `{"PlayerIds":[<int>,...]}` or
/// `{"PlayerIds":[]}`; every value must fit in an `i32`.
pub open spec fn spec_parse_player_ids(s: Seq<char>) -> Option<Seq<i32>> {
    let head = "{\"PlayerIds\":["@;
    if !starts_with(s, head) {
        None
    } else {
        let r1 = s.skip(head.len() as int);
        if r1 == "]}"@ {
            Some(Seq::<i32>::empty())
        } else {
            spec_parse_id_list(r1)
        }
    }
}

/// One or more comma-separated integers followed by `]}`.
pub open spec fn spec_parse_id_list(s: Seq<char>) -> Option<Seq<i32>>
    decreases s.len(),
    via spec_parse_id_list_dec
{
    let neg = s.len() > 0 && s[0] == '-';
    let r = if neg {
        s.skip(1)
    } else {
        s
    };
    let dl = digit_run(r);
    if dl == 0 {
        None
    } else {
        let v = digits_val(r.take(dl as int));
        let sv: int = if neg {
            -v
        } else {
            v
        };
        if sv < i32::MIN || sv > i32::MAX {
            None
        } else {
            let rest = r.skip(dl as int);
            if rest == "]}"@ {
                Some(seq![sv as i32])
            } else if rest.len() > 0 && rest[0] == ',' {
                match spec_parse_id_list(rest.skip(1)) {
                    None => None,
                    Some(t) => Some(seq![sv as i32] + t),
                }
            } else {
                None
            }
        }
    }
}

spec fn id_list_join(r: Option<Seq<i32>>, acc: Seq<i32>) -> Option<Seq<i32>> {
    match r {
        None => None,
        Some(t) => Some(acc + t),
    }
}

/// Parses a subscription-update parameter into the target identities.
#[verifier::rlimit(100)]
pub fn parse_player_ids(param: &str) -> (r: Option<Vec<i32>>)
    ensures
        r is Some <==> spec_parse_player_ids(param@) is Some,
        r matches Some(v) ==> spec_parse_player_ids(param@) matches Some(q) && v@ == q,
{
    let head = "{\"PlayerIds\":[";
    let list_end = "]}";
    let n = param.unicode_len();
    let hl = head.unicode_len();
    let ghost sv = param@;
    if !match_at(param, n, 0, head, hl) {
        proof {
            if starts_with(sv, head@) {
                assert(sv.subrange(0, hl as int) == head@);
            }
        }
        return None;
    }
    proof {
        assert(starts_with(sv, head@));
    }
    let el = list_end.unicode_len();
    let empty_here = match_at(param, n, hl, list_end, el);
    proof {
        let r1 = sv.skip(hl as int);
        if empty_here && hl + el == n {
            assert(r1 =~= sv.subrange(hl as int, hl + el));
            assert(r1 == list_end@);
        } else {
            if r1 == list_end@ {
                assert(r1.len() == el);
                assert(sv.subrange(hl as int, hl + el) =~= r1);
            }
            assert(r1 != list_end@);
        }
    }
    if empty_here && hl + el == n {
        return Some(Vec::new());
    }
    let mut out: Vec<i32> = Vec::new();
    let mut pos: usize = hl;
    proof {
        let r1 = sv.skip(hl as int);
        match spec_parse_id_list(r1) {
            None => {},
            Some(t) => {
                assert(Seq::<i32>::empty() + t =~= t);
            },
        }
    }
    loop
        invariant
            hl <= pos <= n,
            n == sv.len(),
            sv == param@,
            el == list_end@.len(),
            list_end@ == "]}"@,
            spec_parse_player_ids(sv) == id_list_join(
                spec_parse_id_list(sv.skip(pos as int)),
                out@,
            ),
        decreases n - pos,
    {
        let ghost cur = sv.skip(pos as int);
        let neg = pos < n && param.get_char(pos) == '-';
        let dstart: usize = if neg {
            pos + 1
        } else {
            pos
        };
        proof {
            if neg {
                assert(cur[0] == sv[pos as int]);
                assert(cur.skip(1) =~= sv.skip(dstart as int));
            } else {
                if cur.len() > 0 {
                    assert(cur[0] == sv[pos as int]);
                }
            }
        }
        let dl = scan_digits(param, n, dstart);
        if dl == 0 {
            return None;
        }
        proof {
            assert(sv.skip(dstart as int).take(dl as int) =~= sv.subrange(
                dstart as int,
                dstart + dl,
            ));
        }
        let val = match digits_to_i32(param, dstart, dstart + dl, neg) {
            None => {
                return None;
            },
            Some(v) => v,
        };
        let after = dstart + dl;
        let ghost rest = sv.skip(after as int);
        proof {
            assert(sv.skip(dstart as int).skip(dl as int) =~= rest);
        }
        let tail_here = match_at(param, n, after, list_end, el);
        proof {
            if tail_here && after + el == n {
                assert(rest =~= sv.subrange(after as int, after + el));
                assert(rest == list_end@);
            } else {
                if rest == list_end@ {
                    assert(rest.len() == el);
                    assert(sv.subrange(after as int, after + el) =~= rest);
                }
                assert(rest != list_end@);
            }
        }
        if tail_here && after + el == n {
            let ghost acc = out@;
            out.push(val);
            proof {
                assert(cur.len() > 0);
                assert(neg == (cur.len() > 0 && cur[0] == '-'));
                let r = if neg {
                    cur.skip(1)
                } else {
                    cur
                };
                assert(r == sv.skip(dstart as int));
                assert(digit_run(r) == dl);
                let v = digits_val(r.take(dl as int));
                assert(v == digits_val(sv.subrange(dstart as int, dstart + dl)));
                let svv: int = if neg {
                    -v
                } else {
                    v
                };
                assert(i32::MIN <= svv <= i32::MAX);
                assert(val as int == svv);
                assert(r.skip(dl as int) == rest);
                assert(rest == list_end@);
                assert(val == svv as i32);
                lemma_id_list_single(cur, neg, dl as nat, val);
                assert(acc + seq![val] =~= out@);
            }
            return Some(out);
        }
        if after < n && param.get_char(after) == ',' {
            let ghost acc = out@;
            out.push(val);
            proof {
                assert(rest[0] == sv[after as int]);
                assert(rest.skip(1) =~= sv.skip(after + 1));
                let r = if neg {
                    cur.skip(1)
                } else {
                    cur
                };
                assert(r == sv.skip(dstart as int));
                assert(r.skip(dl as int) == rest);
                assert(rest != "]}"@);
                lemma_id_list_cons(cur, neg, dl as nat, val);
                match spec_parse_id_list(sv.skip(after + 1)) {
                    None => {},
                    Some(t) => {
                        assert(acc + (seq![val] + t) =~= out@ + t);
                    },
                }
            }
            pos = after + 1;
        } else {
            proof {
                if rest.len() > 0 {
                    assert(rest[0] == sv[after as int]);
                }
            }
            return None;
        }
    }
}

proof fn lemma_id_list_single(s: Seq<char>, neg: bool, dl: nat, val: i32)
    requires
        neg == (s.len() > 0 && s[0] == '-'),
        dl == digit_run(if neg { s.skip(1) } else { s }),
        dl > 0,
        ({
            let r = if neg { s.skip(1) } else { s };
            let v = digits_val(r.take(dl as int));
            let sv: int = if neg { -v } else { v };
            &&& i32::MIN <= sv <= i32::MAX
            &&& val as int == sv
            &&& r.skip(dl as int) == "]}"@
        }),
    ensures
        spec_parse_id_list(s) == Some(seq![val]),
{
}

proof fn lemma_id_list_cons(s: Seq<char>, neg: bool, dl: nat, val: i32)
    requires
        neg == (s.len() > 0 && s[0] == '-'),
        dl == digit_run(if neg { s.skip(1) } else { s }),
        dl > 0,
        ({
            let r = if neg { s.skip(1) } else { s };
            let v = digits_val(r.take(dl as int));
            let sv: int = if neg { -v } else { v };
            &&& i32::MIN <= sv <= i32::MAX
            &&& val as int == sv
            &&& r.skip(dl as int) != "]}"@
            &&& r.skip(dl as int).len() > 0
            &&& r.skip(dl as int)[0] == ','
        }),
    ensures
        spec_parse_id_list(s) == id_list_join(
            spec_parse_id_list((if neg { s.skip(1) } else { s }).skip(dl as int).skip(1)),
            seq![val],
        ),
{
    let r = if neg { s.skip(1) } else { s };
    match spec_parse_id_list(r.skip(dl as int).skip(1)) {
        None => {},
        Some(t) => {},
    }
}

#[via_fn]
proof fn spec_parse_id_list_dec(s: Seq<char>) {
    if s.len() > 0 && s[0] == '-' {
        lemma_digit_run_le(s.skip(1));
    } else {
        lemma_digit_run_le(s);
    }
}

} // verus!
