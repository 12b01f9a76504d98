use vstd::prelude::*;

use crate::types::texts;

verus! {

/// `s` without the `c` characters at its end.
pub open spec fn trim_end(s: Seq<char>, c: char) -> Seq<char>
    decreases s.len(),
{
    if s.len() > 0 && s.last() == c {
        trim_end(s.drop_last(), c)
    } else {
        s
    }
}

/// The base URL that the client keeps: the given one without its trailing
/// slashes.
pub fn normalize_base_url(base_url: &str) -> (r: String)
    ensures
        r@ == trim_end(base_url@, '/'),
{
    let mut n: usize = base_url.unicode_len();
    proof {
        assert(base_url@.take(n as int) =~= base_url@);
    }
    while n > 0 && base_url.get_char(n - 1) == '/'
        invariant
            n <= base_url@.len(),
            trim_end(base_url@, '/') == trim_end(base_url@.take(n as int), '/'),
        decreases n,
    {
        proof {
            assert(base_url@.take(n - 1) =~= base_url@.take(n as int).drop_last());
        }
        n = n - 1;
    }
    let kept = base_url.substring_char(0, n);
    proof {
        assert(kept@ =~= base_url@.take(n as int));
    }
    String::from_str(kept)
}

/// The decimal digit `d` (below ten) as a character.
pub open spec fn digit(d: nat) -> char {
    (48 + d) as char
}

/// The decimal text of a natural number, without leading zeros.
pub open spec fn decimal(n: nat) -> Seq<char>
    decreases n,
{
    if n < 10 {
        seq![digit(n)]
    } else {
        decimal(n / 10) + seq![digit(n % 10)]
    }
}

/// Appends the decimal text of `n`.
fn append_decimal(out: &mut String, n: u32)
    ensures
        final(out)@ == old(out)@ + decimal(n as nat),
    decreases n,
{
    if n >= 10 {
        append_decimal(out, n / 10);
    }
    let d: usize = (n % 10) as usize;
    let digits = "0123456789";
    proof {
        reveal_strlit("0123456789");
    }
    let one = digits.substring_char(d, d + 1);
    proof {
        assert(one@ =~= seq![digit((n % 10) as nat)]);
    }
    out.append(one);
    proof {
        if n >= 10 {
            assert(decimal(n as nat) == decimal((n / 10) as nat) + seq![digit((n % 10) as nat)]);
        }
    }
}

/// The decimal text of a number.
pub fn decimal_text(n: u32) -> (r: String)
    ensures
        r@ == decimal(n as nat),
{
    let mut out = String::new();
    append_decimal(&mut out, n);
    proof {
        assert(out@ =~= decimal(n as nat));
    }
    out
}

/// The parts joined, with `sep` between each two.
pub open spec fn join_with(parts: Seq<Seq<char>>, sep: Seq<char>) -> Seq<char>
    decreases parts.len(),
{
    if parts.len() == 0 {
        Seq::empty()
    } else if parts.len() == 1 {
        parts[0]
    } else {
        join_with(parts.drop_last(), sep) + sep + parts.last()
    }
}

/// Joins strings with a separator between each two.
pub fn join_strings(parts: &Vec<String>, sep: &str) -> (r: String)
    ensures
        r@ == join_with(texts(parts@), sep@),
{
    let mut out = String::new();
    let mut i: usize = 0;
    while i < parts.len()
        invariant
            i <= parts@.len(),
            out@ == join_with(texts(parts@.take(i as int)), sep@),
        decreases parts@.len() - i,
    {
        proof {
            assert(texts(parts@.take(i + 1)).drop_last() =~= texts(parts@.take(i as int)));
            assert(texts(parts@.take(i + 1)).last() == parts@[i as int]@);
        }
        if i > 0 {
            out.append(sep);
        } else {
            proof {
                assert(out@ =~= Seq::<char>::empty());
            }
        }
        out.append(parts[i].as_str());
        i = i + 1;
    }
    proof {
        assert(parts@.take(parts@.len() as int) =~= parts@);
    }
    out
}

/// The characters of an optional string slice.
pub open spec fn opt_str(o: Option<&str>) -> Option<Seq<char>> {
    match o {
        Some(s) => Some(s@),
        None => None,
    }
}

/// The decimal text of an optional number.
pub open spec fn opt_decimal(o: Option<u32>) -> Option<Seq<char>> {
    match o {
        Some(n) => Some(decimal(n as nat)),
        None => None,
    }
}

/// The query parameter `name=value` where a value is given, else none.
pub open spec fn opt_param(name: Seq<char>, value: Option<Seq<char>>) -> Seq<Seq<char>> {
    match value {
        Some(v) => seq![name + "="@ + v],
        None => Seq::empty(),
    }
}

/// The query parameters of an event listing, in their fixed order.
pub open spec fn event_query(
    entity_id: Option<Seq<char>>,
    event_type: Option<Seq<char>>,
    limit: Option<Seq<char>>,
    offset: Option<Seq<char>>,
) -> Seq<Seq<char>> {
    opt_param("entity_id"@, entity_id) + opt_param("type"@, event_type) + opt_param("limit"@, limit) + opt_param(
        "offset"@,
        offset,
    )
}

/// The number of filters given.
pub open spec fn given<T>(o: Option<T>) -> int {
    if o is Some {
        1
    } else {
        0
    }
}

/// Each filter that is given becomes one query parameter, whatever the other
/// filters are: `entity_id=…`, then `type=…`, then `limit=…`, then
/// `offset=…`, each only when given and none other.
pub proof fn law_event_query(
    entity_id: Option<Seq<char>>,
    event_type: Option<Seq<char>>,
    limit: Option<Seq<char>>,
    offset: Option<Seq<char>>,
)
    ensures
        ({
            let q = event_query(entity_id, event_type, limit, offset);
            let ne = given(entity_id);
            let nt = given(event_type);
            let nl = given(limit);
            &&& q.len() == ne + nt + nl + given(offset)
            &&& entity_id matches Some(id) ==> q[0] == "entity_id="@ + id
            &&& event_type matches Some(t) ==> q[ne] == "type="@ + t
            &&& limit matches Some(l) ==> q[ne + nt] == "limit="@ + l
            &&& offset matches Some(o) ==> q[ne + nt + nl] == "offset="@ + o
        }),
{
    reveal_strlit("=");
    reveal_strlit("entity_id");
    reveal_strlit("entity_id=");
    reveal_strlit("type");
    reveal_strlit("type=");
    reveal_strlit("limit");
    reveal_strlit("limit=");
    reveal_strlit("offset");
    reveal_strlit("offset=");
    assert("entity_id"@ + "="@ =~= "entity_id="@);
    assert("type"@ + "="@ =~= "type="@);
    assert("limit"@ + "="@ =~= "limit="@);
    assert("offset"@ + "="@ =~= "offset="@);
    let a = opt_param("entity_id"@, entity_id);
    let b = opt_param("type"@, event_type);
    let c = opt_param("limit"@, limit);
    let d = opt_param("offset"@, offset);
    assert(event_query(entity_id, event_type, limit, offset) == a + b + c + d);
    if entity_id is Some {
        assert(("entity_id"@ + "="@) + entity_id->0 =~= "entity_id="@ + entity_id->0);
    }
    if event_type is Some {
        assert(("type"@ + "="@) + event_type->0 =~= "type="@ + event_type->0);
    }
    if limit is Some {
        assert(("limit"@ + "="@) + limit->0 =~= "limit="@ + limit->0);
    }
    if offset is Some {
        assert(("offset"@ + "="@) + offset->0 =~= "offset="@ + offset->0);
    }
}

/// The path of an event listing filtered by entity alone.
pub proof fn law_events_path_entity_only(id: Seq<char>)
    ensures
        events_path(event_query(Some(id), None, None, None)) == "/api/v1/events?entity_id="@ + id,
{
    law_event_query(Some(id), None, None, None);
    let q = event_query(Some(id), None, None, None);
    assert(q =~= seq!["entity_id="@ + id]);
    reveal_strlit("/api/v1/events?");
    reveal_strlit("entity_id=");
    reveal_strlit("/api/v1/events?entity_id=");
    assert("/api/v1/events?"@ + ("entity_id="@ + id) =~= "/api/v1/events?entity_id="@ + id);
}

/// The path of an event listing: the events endpoint, with its query
/// parameters joined by `&` after a `?` where there are any.
pub open spec fn events_path(params: Seq<Seq<char>>) -> Seq<char> {
    if params.len() == 0 {
        "/api/v1/events"@
    } else {
        "/api/v1/events?"@ + join_with(params, "&"@)
    }
}

/// Adds `name=value` to the parameters.
fn push_param(params: &mut Vec<String>, name: &str, value: &str)
    ensures
        texts(final(params)@) == texts(old(params)@).push(name@ + "="@ + value@),
{
    let mut p = String::from_str(name);
    p.append("=");
    p.append(value);
    params.push(p);
    proof {
        assert(texts(params@) =~= texts(old(params)@).push(name@ + "="@ + value@));
    }
}

/// The path that lists events, with the filters that are given as query
/// parameters (entity id, event type, limit, offset, in that order).
pub fn list_events_path(
    entity_id: Option<&str>,
    event_type: Option<&str>,
    limit: Option<u32>,
    offset: Option<u32>,
) -> (r: String)
    ensures
        r@ == events_path(event_query(opt_str(entity_id), opt_str(event_type), opt_decimal(limit), opt_decimal(offset))),
{
    let mut params: Vec<String> = Vec::new();
    proof {
        assert(texts(params@) =~= Seq::<Seq<char>>::empty());
    }
    if let Some(id) = entity_id {
        push_param(&mut params, "entity_id", id);
    }
    if let Some(t) = event_type {
        push_param(&mut params, "type", t);
    }
    if let Some(l) = limit {
        let text = decimal_text(l);
        push_param(&mut params, "limit", text.as_str());
    }
    if let Some(o) = offset {
        let text = decimal_text(o);
        push_param(&mut params, "offset", text.as_str());
    }
    let ghost q = event_query(opt_str(entity_id), opt_str(event_type), opt_decimal(limit), opt_decimal(offset));
    proof {
        assert(texts(params@) =~= q);
    }
    if params.len() == 0 {
        String::from_str("/api/v1/events")
    } else {
        let mut path = String::from_str("/api/v1/events?");
        let joined = join_strings(&params, "&");
        path.append(joined.as_str());
        path
    }
}

/// The URL of a request: the base URL followed by the path.
pub fn request_url(base_url: &str, path: &str) -> (r: String)
    ensures
        r@ == base_url@ + path@,
{
    let mut url = String::from_str(base_url);
    url.append(path);
    url
}

/// The name and value of each header of a request.
pub open spec fn headers_view(h: Seq<(String, String)>) -> Seq<(Seq<char>, Seq<char>)> {
    h.map_values(|p: (String, String)| (p.0@, p.1@))
}

/// The headers that every request carries: JSON as content type and as what
/// is accepted, and a bearer token where an API key is set.
pub open spec fn request_headers_spec(api_key: Option<Seq<char>>) -> Seq<(Seq<char>, Seq<char>)> {
    let base = seq![("Content-Type"@, "application/json"@), ("Accept"@, "application/json"@)];
    match api_key {
        Some(k) => base.push(("Authorization"@, "Bearer "@ + k)),
        None => base,
    }
}

/// The headers of a request.
pub fn request_headers(api_key: Option<&str>) -> (r: Vec<(String, String)>)
    ensures
        headers_view(r@) == request_headers_spec(opt_str(api_key)),
{
    let mut h: Vec<(String, String)> = Vec::new();
    h.push((String::from_str("Content-Type"), String::from_str("application/json")));
    h.push((String::from_str("Accept"), String::from_str("application/json")));
    if let Some(key) = api_key {
        let mut bearer = String::from_str("Bearer ");
        bearer.append(key);
        h.push((String::from_str("Authorization"), bearer));
    }
    proof {
        assert(headers_view(h@) =~= request_headers_spec(opt_str(api_key)));
    }
    h
}

/// Whether an HTTP status reports success: 200 to 299.
pub fn is_success_status(status: u16) -> (r: bool)
    ensures
        r == (200 <= status && status < 300),
{
    200 <= status && status < 300
}

/// Whether an HTTP status reports that the service is ready: exactly 200.
pub fn is_ready_status(status: u16) -> (r: bool)
    ensures
        r == (status == 200),
{
    status == 200
}

} // verus!
