//! REST-style query builder over the host-call adapters: assembles the
//! request a table query stands for — URL, headers, query parameters,
//! method and optional body — and prepares it for the boundary.

use vstd::prelude::*;
use vstd::string::StringExecFns;

use crate::common::{
    enc_request, enc_send_string, request_encodable, send_string_encodable, Method, RequestDataV,
    SendStringDataV,
};
use crate::error::HostError;
use crate::http::{HostSlot, PreparedCall, Request};
use crate::json::dec_digits;

verus! {

/// Mathematical image of a client: its base URL and its standing headers.
#[verifier::ext_equal]
pub ghost struct SupabaseV {
    pub url: Seq<char>,
    pub headers: Seq<(Seq<char>, Seq<char>)>,
}

/// A client for one REST endpoint: the base URL and headers sent with
/// every query, such as the API key.
pub struct Supabase {
    url: String,
    headers: Vec<(String, String)>,
}

impl View for Supabase {
    type V = SupabaseV;

    closed spec fn view(&self) -> SupabaseV {
        SupabaseV { url: self.url@, headers: self.headers.deep_view() }
    }
}

impl Supabase {
    /// A client for the endpoint at `url`.
    pub fn new(url: &str) -> (r: Self)
        ensures
            r@.url == url@,
            r@.headers == Seq::<(Seq<char>, Seq<char>)>::empty(),
    {
        let r = Supabase { url: url.to_owned(), headers: Vec::new() };
        proof {
            assert(r.headers.deep_view() =~= Seq::<(Seq<char>, Seq<char>)>::empty());
        }
        r
    }

    /// Adds a header sent with every query.
    pub fn insert_header(self, header: &str, value: &str) -> (r: Self)
        ensures
            r@.url == self@.url,
            r@.headers == self@.headers.push((header@, value@)),
    {
        let ghost before = self@;
        let mut r = self;
        r.headers.push((header.to_owned(), value.to_owned()));
        proof {
            assert(r.headers.deep_view() =~= before.headers.push((header@, value@)));
        }
        r
    }

    /// Copies a list of header pairs.
    fn clone_pairs(v: &Vec<(String, String)>) -> (r: Vec<(String, String)>)
        ensures
            r.deep_view() == v.deep_view(),
    {
        let mut out: Vec<(String, String)> = Vec::new();
        let n = v.len();
        for i in 0..n
            invariant
                n == v.len(),
                out.deep_view() =~= v.deep_view().take(i as int),
        {
            let ghost prev = out.deep_view();
            out.push((v[i].0.clone(), v[i].1.clone()));
            proof {
                assert(out.deep_view() =~= prev.push((v@[i as int].0@, v@[i as int].1@)));
                assert(v.deep_view()[i as int] == (v@[i as int].0@, v@[i as int].1@));
                assert(v.deep_view().take(i + 1) =~= v.deep_view().take(i as int).push(
                    v.deep_view()[i as int],
                ));
            }
        }
        proof {
            assert(v.deep_view().take(n as int) =~= v.deep_view());
        }
        out
    }

    /// Starts a query against one table, inheriting the client's headers.
    pub fn from<'a>(&'a self, url: &str) -> (r: Builder<'a>)
        ensures
            r@ == (BuilderV {
                base: self@.url,
                url: url@,
                method: Method::GET,
                body: Option::None,
                headers: self@.headers,
                queries: Seq::empty(),
            }),
    {
        let r = Builder {
            client: self,
            url: url.to_owned(),
            method: Method::GET,
            body: None,
            headers: Self::clone_pairs(&self.headers),
            queries: Vec::new(),
        };
        proof {
            assert(r.queries.deep_view() =~= Seq::<(Seq<char>, Seq<char>)>::empty());
            assert(r.headers.deep_view() =~= self@.headers);
        }
        r
    }
}

/// Mathematical image of a query under construction.
#[verifier::ext_equal]
pub ghost struct BuilderV {
    pub base: Seq<char>,
    pub url: Seq<char>,
    pub method: Method,
    pub body: Option<Seq<char>>,
    pub headers: Seq<(Seq<char>, Seq<char>)>,
    pub queries: Seq<(Seq<char>, Seq<char>)>,
}

/// A query under construction against one table.
pub struct Builder<'a> {
    client: &'a Supabase,
    url: String,
    method: Method,
    body: Option<String>,
    headers: Vec<(String, String)>,
    queries: Vec<(String, String)>,
}

impl View for Builder<'_> {
    type V = BuilderV;

    closed spec fn view(&self) -> BuilderV {
        BuilderV {
            base: self.client.url@,
            url: self.url@,
            method: self.method,
            body: self.body.deep_view(),
            headers: self.headers.deep_view(),
            queries: self.queries.deep_view(),
        }
    }
}

/// The flattened key/value pairs, in order, as the wire carries them.
pub open spec fn flatten_pairs(ps: Seq<(Seq<char>, Seq<char>)>) -> Seq<Seq<char>>
    decreases ps.len(),
{
    if ps.len() == 0 {
        Seq::empty()
    } else {
        seq![ps[0].0, ps[0].1] + flatten_pairs(ps.drop_first())
    }
}

/// The URL a query addresses: the base, the REST path, and the table.
pub open spec fn execute_url(b: BuilderV) -> Seq<char> {
    b.base + "/rest/v1/"@ + b.url
}

/// The request descriptor a finished query stands for.
pub open spec fn execute_request(b: BuilderV) -> RequestDataV {
    RequestDataV {
        url: execute_url(b),
        headers: flatten_pairs(b.headers),
        queries: flatten_pairs(b.queries),
        method: b.method,
    }
}

/// What executing a query returns: a prepared call holding exactly the
/// encoding of the request it stands for — with its body as text payload
/// when one was set, through the plain call capability otherwise — or the
/// serialize-data failure exactly when that envelope is not representable.
pub open spec fn execute_ensures(b: BuilderV, r: Result<PreparedCall, HostError>) -> bool {
    &&& match b.body {
        Option::Some(body) => {
            &&& r is Ok <==> send_string_encodable(
                SendStringDataV { request_data: execute_request(b), data: body },
            )
            &&& r is Ok ==> r->Ok_0.slot == HostSlot::SendString && r->Ok_0.envelope@
                == enc_send_string(
                SendStringDataV { request_data: execute_request(b), data: body },
            )
        },
        Option::None => {
            &&& r is Ok <==> request_encodable(execute_request(b))
            &&& r is Ok ==> r->Ok_0.slot == HostSlot::CallRequest && r->Ok_0.envelope@
                == enc_request(execute_request(b))
        },
    }
    &&& (r is Err ==> r == Result::<PreparedCall, HostError>::Err(HostError::SerializeData))
}

/// Flattened pairs always have even length: a query's wire form never
/// holds half a pair.
pub proof fn lemma_flatten_pairs_even(ps: Seq<(Seq<char>, Seq<char>)>)
    ensures
        flatten_pairs(ps).len() % 2 == 0,
    decreases ps.len(),
{
    if ps.len() > 0 {
        lemma_flatten_pairs_even(ps.drop_first());
    }
}

/// Flattening one more pair appends its key and its value.
proof fn lemma_flatten_pairs_snoc(ps: Seq<(Seq<char>, Seq<char>)>, i: int)
    requires
        0 <= i < ps.len(),
    ensures
        flatten_pairs(ps.take(i + 1)) == flatten_pairs(ps.take(i)) + seq![ps[i].0, ps[i].1],
    decreases i,
{
    if i == 0 {
        assert(ps.take(1).drop_first() =~= Seq::<(Seq<char>, Seq<char>)>::empty());
        assert(flatten_pairs(Seq::<(Seq<char>, Seq<char>)>::empty()) == Seq::<Seq<char>>::empty());
        assert(ps.take(1)[0] == ps[0]);
        assert(flatten_pairs(ps.take(1)) == seq![ps[0].0, ps[0].1] + Seq::<Seq<char>>::empty());
        assert(ps.take(0) =~= Seq::<(Seq<char>, Seq<char>)>::empty());
        assert(flatten_pairs(ps.take(1)) =~= flatten_pairs(ps.take(0)) + seq![ps[0].0, ps[0].1]);
    } else {
        let t = ps.drop_first();
        lemma_flatten_pairs_snoc(t, i - 1);
        assert(ps.take(i + 1).drop_first() =~= t.take(i));
        assert(ps.take(i).drop_first() =~= t.take(i - 1));
        assert(ps.take(i + 1)[0] == ps[0] && ps.take(i)[0] == ps[0]);
        assert(flatten_pairs(ps.take(i + 1)) == seq![ps[0].0, ps[0].1] + flatten_pairs(t.take(i)));
        assert(flatten_pairs(ps.take(i)) == seq![ps[0].0, ps[0].1] + flatten_pairs(
            t.take(i - 1),
        ));
        assert(seq![ps[0].0, ps[0].1] + (flatten_pairs(t.take(i - 1)) + seq![t[i - 1].0, t[i
            - 1].1]) =~= (seq![ps[0].0, ps[0].1] + flatten_pairs(t.take(i - 1))) + seq![ps[i].0, ps[
        i].1]);
    }
}

impl<'a> Builder<'a> {
    /// Pushes one header pair, keeping everything else.
    fn push_header(self, header: String, value: String) -> (r: Builder<'a>)
        ensures
            r@ == (BuilderV { headers: self@.headers.push((header@, value@)), ..self@ }),
    {
        let ghost before = self@;
        let mut r = self;
        r.headers.push((header, value));
        proof {
            assert(r.headers.deep_view() =~= before.headers.push(
                (r.headers@[before.headers.len() as int].0@,
                r.headers@[before.headers.len() as int].1@),
            ));
        }
        r
    }

    /// Pushes one query pair, keeping everything else.
    fn push_query(self, param: String, value: String) -> (r: Builder<'a>)
        ensures
            r@ == (BuilderV { queries: self@.queries.push((param@, value@)), ..self@ }),
    {
        let ghost before = self@;
        let mut r = self;
        r.queries.push((param, value));
        proof {
            assert(r.queries.deep_view() =~= before.queries.push(
                (r.queries@[before.queries.len() as int].0@,
                r.queries@[before.queries.len() as int].1@),
            ));
        }
        r
    }

    /// Authenticates the query with a bearer token.
    pub fn auth(self, token: &str) -> (r: Builder<'a>)
        ensures
            r@ == (BuilderV {
                headers: self@.headers.push(("Authorization"@, "Bearer "@ + token@)),
                ..self@
            }),
    {
        let mut value = String::from_str("Bearer ");
        value.append(token);
        self.push_header("Authorization".to_owned(), value)
    }

    /// Selects the columns the query returns.
    pub fn select(self, columns: &str) -> (r: Builder<'a>)
        ensures
            r@ == (BuilderV {
                queries: self@.queries.push(("select"@, columns@)),
                ..self@
            }),
    {
        self.push_query("select".to_owned(), columns.to_owned())
    }

    /// Orders the rows the query returns.
    pub fn order(self, columns: &str) -> (r: Builder<'a>)
        ensures
            r@ == (BuilderV { queries: self@.queries.push(("order"@, columns@)), ..self@ }),
    {
        self.push_query("order".to_owned(), columns.to_owned())
    }

    /// Limits the query to its first `count` rows, `count` at least one.
    pub fn limit(self, count: usize) -> (r: Builder<'a>)
        requires
            count >= 1,
        ensures
            r@ == (BuilderV {
                headers: self@.headers.push(("Range-Unit"@, "items"@)).push(
                    ("Range"@, "0-"@ + dec_digits((count - 1) as nat)),
                ),
                ..self@
            }),
    {
        let mut range = String::from_str("0-");
        crate::json::push_decimal(&mut range, (count - 1) as u64);
        self.push_header("Range-Unit".to_owned(), "items".to_owned()).push_header(
            "Range".to_owned(),
            range,
        )
    }

    /// Restricts the query to the rows from `low` to `high`.
    pub fn range(self, low: usize, high: usize) -> (r: Builder<'a>)
        ensures
            r@ == (BuilderV {
                headers: self@.headers.push(("Range-Unit"@, "items"@)).push(
                    ("Range"@, dec_digits(low as nat) + "-"@ + dec_digits(high as nat)),
                ),
                ..self@
            }),
    {
        let mut value = String::new();
        crate::json::push_decimal(&mut value, low as u64);
        value.append("-");
        crate::json::push_decimal(&mut value, high as u64);
        self.push_header("Range-Unit".to_owned(), "items".to_owned()).push_header(
            "Range".to_owned(),
            value,
        )
    }

    /// Asks for a row count computed the named way alongside a one-row
    /// range.
    fn count(self, method: &str) -> (r: Builder<'a>)
        ensures
            r@ == (BuilderV {
                headers: self@.headers.push(("Range-Unit"@, "items"@)).push(
                    ("Range"@, "0-0"@),
                ).push(("Insert"@, "count="@ + method@)),
                ..self@
            }),
    {
        let mut value = String::from_str("count=");
        value.append(method);
        self.push_header("Range-Unit".to_owned(), "items".to_owned()).push_header(
            "Range".to_owned(),
            "0-0".to_owned(),
        ).push_header("Insert".to_owned(), value)
    }

    /// Asks for the exact row count.
    pub fn exact_count(self) -> (r: Builder<'a>)
        ensures
            r@ == (BuilderV {
                headers: self@.headers.push(("Range-Unit"@, "items"@)).push(
                    ("Range"@, "0-0"@),
                ).push(("Insert"@, "count="@ + "exact"@)),
                ..self@
            }),
    {
        self.count("exact")
    }

    /// Asks for the planner's row count.
    pub fn planned_count(self) -> (r: Builder<'a>)
        ensures
            r@ == (BuilderV {
                headers: self@.headers.push(("Range-Unit"@, "items"@)).push(
                    ("Range"@, "0-0"@),
                ).push(("Insert"@, "count="@ + "planned"@)),
                ..self@
            }),
    {
        self.count("planned")
    }

    /// Asks for an estimated row count.
    pub fn estimated_count(self) -> (r: Builder<'a>)
        ensures
            r@ == (BuilderV {
                headers: self@.headers.push(("Range-Unit"@, "items"@)).push(
                    ("Range"@, "0-0"@),
                ).push(("Insert"@, "count="@ + "estimated"@)),
                ..self@
            }),
    {
        self.count("estimated")
    }

    /// Asks for a single row as a bare object.
    pub fn single(self) -> (r: Builder<'a>)
        ensures
            r@ == (BuilderV {
                headers: self@.headers.push(
                    ("Accept"@, "application/vnd.pgrst.object+json"@),
                ),
                ..self@
            }),
    {
        self.push_header("Accept".to_owned(), "application/vnd.pgrst.object+json".to_owned())
    }

    /// Inserts rows: posts the body and asks for the inserted rows back.
    pub fn insert(self, body: String) -> (r: Builder<'a>)
        ensures
            r@ == (BuilderV {
                method: Method::POST,
                body: Option::Some(body@),
                headers: self@.headers.push(("Prefer"@, "return=representation"@)),
                ..self@
            }),
    {
        let ghost b = body@;
        let mut r = self.push_header("Prefer".to_owned(), "return=representation".to_owned());
        r.method = Method::POST;
        r.body = Some(body);
        proof {
            assert(r.body.deep_view() == Option::Some(b));
        }
        r
    }

    /// Inserts or merges rows on conflict.
    pub fn upsert(self, body: String) -> (r: Builder<'a>)
        ensures
            r@ == (BuilderV {
                method: Method::POST,
                body: Option::Some(body@),
                headers: self@.headers.push(
                    ("Prefer"@, "return=representation,resolution=merge-duplicates"@),
                ),
                ..self@
            }),
    {
        let ghost b = body@;
        let mut r = self.push_header(
            "Prefer".to_owned(),
            "return=representation,resolution=merge-duplicates".to_owned(),
        );
        r.method = Method::POST;
        r.body = Some(body);
        proof {
            assert(r.body.deep_view() == Option::Some(b));
        }
        r
    }

    /// Names the columns a conflicting upsert resolves on.
    pub fn on_conflict(self, columns: &str) -> (r: Builder<'a>)
        ensures
            r@ == (BuilderV {
                queries: self@.queries.push(("on_conflict"@, columns@)),
                ..self@
            }),
    {
        self.push_query("on_conflict".to_owned(), columns.to_owned())
    }

    /// Updates rows: patches with the body and asks for the updated rows.
    pub fn update(self, body: String) -> (r: Builder<'a>)
        ensures
            r@ == (BuilderV {
                method: Method::PATCH,
                body: Option::Some(body@),
                headers: self@.headers.push(("Prefer"@, "return=representation"@)),
                ..self@
            }),
    {
        let ghost b = body@;
        let mut r = self.push_header("Prefer".to_owned(), "return=representation".to_owned());
        r.method = Method::PATCH;
        r.body = Some(body);
        proof {
            assert(r.body.deep_view() == Option::Some(b));
        }
        r
    }

    /// Deletes the matching rows and asks for them back.
    pub fn delete(self) -> (r: Builder<'a>)
        ensures
            r@ == (BuilderV {
                method: Method::DELETE,
                headers: self@.headers.push(("Prefer"@, "return=representation"@)),
                ..self@
            }),
    {
        let mut r = self.push_header("Prefer".to_owned(), "return=representation".to_owned());
        r.method = Method::DELETE;
        r
    }

    /// Adds a negated filter on one column.
    pub fn not(self, operator: &str, column: &str, filter: &str) -> (r: Builder<'a>)
        ensures
            r@ == (BuilderV {
                queries: self@.queries.push(
                    (column@, "not."@ + operator@ + "."@ + filter@),
                ),
                ..self@
            }),
    {
        let mut value = String::from_str("not.");
        value.append(operator);
        value.append(".");
        value.append(filter);
        self.push_query(column.to_owned(), value)
    }

    /// Executes the query: assembles the request it stands for and prepares
    /// it for the boundary, with its body as text payload when one was set.
    pub fn execute(self) -> (r: Result<PreparedCall, HostError>)
        ensures
            execute_ensures(self@, r),
    {
        let ghost bv = self@;
        let mut url = self.client.url.clone();
        url.append("/rest/v1/");
        url.append(self.url.as_str());
        proof {
            assert(url@ =~= execute_url(bv));
        }
        let mut request = Request::new(url.as_str(), self.method);
        proof {
            assert(request@.headers =~= flatten_pairs(bv.headers.take(0)));
            assert(request@.queries =~= flatten_pairs(bv.queries.take(0)));
        }
        let n = self.headers.len();
        for i in 0..n
            invariant
                n == self.headers.len(),
                bv.headers == self.headers.deep_view(),
                bv.headers.len() == n,
                request@ == (RequestDataV {
                    url: execute_url(bv),
                    headers: flatten_pairs(bv.headers.take(i as int)),
                    queries: flatten_pairs(bv.queries.take(0)),
                    method: bv.method,
                }),
        {
            assert(bv.headers[i as int] == (self.headers@[i as int].0@,
            self.headers@[i as int].1@));
            request = request.set(self.headers[i].0.as_str(), self.headers[i].1.as_str());
            proof {
                lemma_flatten_pairs_snoc(bv.headers, i as int);
                assert(request@.headers =~= flatten_pairs(bv.headers.take(i + 1)));
            }
        }
        proof {
            assert(bv.headers.take(n as int) =~= bv.headers);
        }
        let m = self.queries.len();
        for i in 0..m
            invariant
                m == self.queries.len(),
                bv.queries == self.queries.deep_view(),
                bv.queries.len() == m,
                request@ == (RequestDataV {
                    url: execute_url(bv),
                    headers: flatten_pairs(bv.headers),
                    queries: flatten_pairs(bv.queries.take(i as int)),
                    method: bv.method,
                }),
        {
            assert(bv.queries[i as int] == (self.queries@[i as int].0@,
            self.queries@[i as int].1@));
            request = request.query(self.queries[i].0.as_str(), self.queries[i].1.as_str());
            proof {
                lemma_flatten_pairs_snoc(bv.queries, i as int);
                assert(request@.queries =~= flatten_pairs(bv.queries.take(i + 1)));
            }
        }
        proof {
            assert(bv.queries.take(m as int) =~= bv.queries);
            assert(request@ =~= execute_request(bv));
        }
        match self.body {
            Some(body) => request.send_string(body),
            None => request.call(),
        }
    }
}

} // verus!
