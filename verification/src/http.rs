use vstd::prelude::*;

verus! {

/// The bytes of the request line `GET / HTTP/1.1\r\n`, the only request the
/// acceptor answers with the page itself; anything else gets the not-found
/// answer.
pub open spec fn get_request_line() -> Seq<u8> {
    seq![71u8, 69u8, 84u8, 32u8, 47u8, 32u8, 72u8, 84u8, 84u8, 80u8, 47u8, 49u8, 46u8, 49u8, 13u8, 10u8]
}

/// A raw request asks for the page exactly when it starts with the bytes of
/// `GET / HTTP/1.1\r\n`.
pub open spec fn is_get_root_spec(data: Seq<u8>) -> bool {
    data.len() >= get_request_line().len() && (forall|i: int|
        0 <= i < get_request_line().len() ==> data[i] == get_request_line()[i])
}

/// The `i`-th byte of the request line `GET / HTTP/1.1\r\n`.
fn get_request_line_byte(i: usize) -> (b: u8)
    requires
        i < get_request_line().len(),
    ensures
        b == get_request_line()[i as int],
{
    match i {
        0 => 71,
        1 => 69,
        2 => 84,
        3 => 32,
        4 => 47,
        5 => 32,
        6 => 72,
        7 => 84,
        8 => 84,
        9 => 80,
        10 => 47,
        11 => 49,
        12 => 46,
        13 => 49,
        14 => 13,
        _ => 10,
    }
}

/// Decides whether a raw request, as read from a connection, asks for the
/// root page: true exactly when the data starts with `GET / HTTP/1.1\r\n`.
pub fn is_get_root_request(data: &[u8]) -> (r: bool)
    ensures
        r == is_get_root_spec(data@),
{
    let n: usize = 16;
    proof {
        assert(get_request_line().len() == n);
    }
    if data.len() < n {
        return false;
    }
    let mut i: usize = 0;
    while i < n
        invariant
            i <= n,
            n == get_request_line().len(),
            data@.len() >= n,
            forall|j: int| 0 <= j < i ==> data@[j] == get_request_line()[j],
        decreases n - i,
    {
        if data[i] != get_request_line_byte(i) {
            return false;
        }
        i += 1;
    }
    true
}

/// Builds the bytes of a response: the status line and headers followed
/// directly by the body, nothing added and nothing lost.
pub fn build_response(header: &[u8], body: &[u8]) -> (r: Vec<u8>)
    ensures
        r@ == header@ + body@,
{
    let mut r: Vec<u8> = Vec::new();
    let mut i: usize = 0;
    while i < header.len()
        invariant
            i <= header@.len(),
            r@ == header@.take(i as int),
        decreases header@.len() - i,
    {
        r.push(header[i]);
        proof {
            assert(r@ =~= header@.take(i + 1));
        }
        i += 1;
    }
    proof {
        assert(r@ =~= header@);
    }
    let mut j: usize = 0;
    while j < body.len()
        invariant
            j <= body@.len(),
            r@ == header@ + body@.take(j as int),
        decreases body@.len() - j,
    {
        r.push(body[j]);
        proof {
            assert(r@ =~= header@ + body@.take(j + 1));
        }
        j += 1;
    }
    proof {
        assert(r@ =~= header@ + body@);
    }
    r
}

} // verus!
