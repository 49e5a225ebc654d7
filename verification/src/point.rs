//! Index points and the derivation of their identifiers.
//!
//! A file's content is embedded into an ordered list of vectors, one per
//! chunk. Chunk `i` (counting contiguously from zero) becomes the point with
//! identifier `"<path>-<i>"`, so re-embedding the same file overwrites its
//! points instead of duplicating them, and the identifiers of two different
//! paths never collide.

use vstd::prelude::*;
use vstd::string::StringExecFns;

use crate::embedding::views_of;
use crate::embedding::response_valid;
use crate::embedding::EmbeddingVector;
use crate::errors::IndexError;

verus! {

/// The decimal digit character for a value below ten.
pub open spec fn digit_char(d: int) -> char {
    if d == 0 {
        '0'
    } else if d == 1 {
        '1'
    } else if d == 2 {
        '2'
    } else if d == 3 {
        '3'
    } else if d == 4 {
        '4'
    } else if d == 5 {
        '5'
    } else if d == 6 {
        '6'
    } else if d == 7 {
        '7'
    } else if d == 8 {
        '8'
    } else {
        '9'
    }
}

/// Whether a character is a decimal digit.
pub open spec fn is_digit_char(c: char) -> bool {
    c == '0' || c == '1' || c == '2' || c == '3' || c == '4' || c == '5' || c == '6' || c == '7'
        || c == '8' || c == '9'
}

/// The decimal notation of a natural number, most significant digit first.
pub open spec fn dec_digits(n: nat) -> Seq<char>
    decreases n,
{
    if n < 10 {
        seq![digit_char(n as int)]
    } else {
        dec_digits(n / 10) + seq![digit_char((n % 10) as int)]
    }
}

/// Decimal notation is nonempty and consists of digit characters only.
pub proof fn lemma_dec_digits_shape(n: nat)
    ensures
        dec_digits(n).len() >= 1,
        forall|i: int| 0 <= i < dec_digits(n).len() ==> is_digit_char(#[trigger] dec_digits(n)[i]),
    decreases n,
{
    if n >= 10 {
        lemma_dec_digits_shape(n / 10);
        assert forall|i: int| 0 <= i < dec_digits(n).len() implies is_digit_char(
            #[trigger] dec_digits(n)[i],
        ) by {
            if i < dec_digits(n / 10).len() {
                assert(dec_digits(n)[i] == dec_digits(n / 10)[i]);
            } else {
                assert(dec_digits(n)[i] == digit_char((n % 10) as int));
            }
        }
    }
}

/// Two naturals with the same decimal notation are the same number.
pub proof fn lemma_dec_digits_injective(a: nat, b: nat)
    requires
        dec_digits(a) == dec_digits(b),
    ensures
        a == b,
    decreases a,
{
    lemma_dec_digits_shape(a);
    lemma_dec_digits_shape(b);
    if a < 10 && b < 10 {
        assert(dec_digits(a)[0] == digit_char(a as int));
        assert(dec_digits(b)[0] == digit_char(b as int));
    } else if a < 10 && b >= 10 {
        lemma_dec_digits_shape(b / 10);
        assert(dec_digits(b).len() >= 2);
        assert(false);
    } else if a >= 10 && b < 10 {
        lemma_dec_digits_shape(a / 10);
        assert(dec_digits(a).len() >= 2);
        assert(false);
    } else {
        let la = dec_digits(a / 10).len() as int;
        let lb = dec_digits(b / 10).len() as int;
        assert(dec_digits(a).len() == la + 1);
        assert(dec_digits(b).len() == lb + 1);
        assert(la == lb);
        assert(dec_digits(a)[la] == digit_char((a % 10) as int));
        assert(dec_digits(b)[lb] == digit_char((b % 10) as int));
        assert(a % 10 == b % 10);
        assert(dec_digits(a / 10) =~= dec_digits(b / 10)) by {
            assert forall|i: int| 0 <= i < la implies #[trigger] dec_digits(a / 10)[i]
                == dec_digits(b / 10)[i] by {
                assert(dec_digits(a)[i] == dec_digits(a / 10)[i]);
                assert(dec_digits(b)[i] == dec_digits(b / 10)[i]);
            }
        }
        lemma_dec_digits_injective(a / 10, b / 10);
    }
}

/// The identifier of the point for chunk `n` of the file at `path`.
pub open spec fn point_id_spec(path: Seq<char>, n: nat) -> Seq<char> {
    path + seq!['-'] + dec_digits(n)
}

/// Whether `id` is the identifier of some chunk of the file at `path`.
pub open spec fn derives_from(id: Seq<char>, path: Seq<char>) -> bool {
    exists|n: nat| id == point_id_spec(path, n)
}

/// Identifier derivation is injective: the same identifier cannot come from
/// two different paths, nor from two different chunk indices of one path.
/// This is what lets a deletion by tracked identifiers remove everything a
/// path contributed and nothing anybody else did.
pub proof fn lemma_point_id_unique(p1: Seq<char>, n1: nat, p2: Seq<char>, n2: nat)
    requires
        point_id_spec(p1, n1) == point_id_spec(p2, n2),
    ensures
        p1 == p2,
        n1 == n2,
{
    let d1 = dec_digits(n1);
    let d2 = dec_digits(n2);
    lemma_dec_digits_shape(n1);
    lemma_dec_digits_shape(n2);
    let s = point_id_spec(p1, n1);
    assert(s.len() == p1.len() + 1 + d1.len());
    assert(s.len() == p2.len() + 1 + d2.len());
    assert(s[p1.len() as int] == '-');
    assert(s[p2.len() as int] == '-');
    if p1.len() < p2.len() {
        let k = p2.len() as int;
        assert(k < s.len() - 1);
        assert(s[k] == d1[k - p1.len() - 1]);
        assert(is_digit_char(d1[k - p1.len() - 1]));
        assert(false);
    }
    if p2.len() < p1.len() {
        let k = p1.len() as int;
        assert(k < s.len() - 1);
        assert(s[k] == d2[k - p2.len() - 1]);
        assert(is_digit_char(d2[k - p2.len() - 1]));
        assert(false);
    }
    assert(p1 =~= p2) by {
        assert forall|i: int| 0 <= i < p1.len() implies p1[i] == p2[i] by {
            assert(s[i] == p1[i]);
            assert(s[i] == p2[i]);
        }
    }
    assert(d1 =~= d2) by {
        assert forall|i: int| 0 <= i < d1.len() implies d1[i] == d2[i] by {
            assert(s[p1.len() + 1 + i] == d1[i]);
            assert(s[p2.len() + 1 + i] == d2[i]);
        }
    }
    lemma_dec_digits_injective(n1, n2);
}

/// A static string holding exactly the decimal digit for `d`.
fn digit_str(d: u64) -> (s: &'static str)
    requires
        d < 10,
    ensures
        s@ == seq![digit_char(d as int)],
{
    match d {
        0 => {
            proof {
                reveal_strlit("0");
                assert("0"@ =~= seq![digit_char(0)]);
            }
            "0"
        },
        1 => {
            proof {
                reveal_strlit("1");
                assert("1"@ =~= seq![digit_char(1)]);
            }
            "1"
        },
        2 => {
            proof {
                reveal_strlit("2");
                assert("2"@ =~= seq![digit_char(2)]);
            }
            "2"
        },
        3 => {
            proof {
                reveal_strlit("3");
                assert("3"@ =~= seq![digit_char(3)]);
            }
            "3"
        },
        4 => {
            proof {
                reveal_strlit("4");
                assert("4"@ =~= seq![digit_char(4)]);
            }
            "4"
        },
        5 => {
            proof {
                reveal_strlit("5");
                assert("5"@ =~= seq![digit_char(5)]);
            }
            "5"
        },
        6 => {
            proof {
                reveal_strlit("6");
                assert("6"@ =~= seq![digit_char(6)]);
            }
            "6"
        },
        7 => {
            proof {
                reveal_strlit("7");
                assert("7"@ =~= seq![digit_char(7)]);
            }
            "7"
        },
        8 => {
            proof {
                reveal_strlit("8");
                assert("8"@ =~= seq![digit_char(8)]);
            }
            "8"
        },
        _ => {
            proof {
                reveal_strlit("9");
                assert("9"@ =~= seq![digit_char(9)]);
            }
            "9"
        },
    }
}

/// The decimal notation of `n` as a string.
pub fn to_decimal(n: u64) -> (s: String)
    ensures
        s@ == dec_digits(n as nat),
    decreases n,
{
    if n < 10 {
        digit_str(n).to_owned()
    } else {
        let mut s = to_decimal(n / 10);
        s.append(digit_str(n % 10));
        proof {
            assert(s@ =~= dec_digits(n as nat));
        }
        s
    }
}

/// The identifier of the point for chunk `n` of the file at `path`.
pub fn point_id(path: &str, n: u64) -> (id: String)
    ensures
        id@ == point_id_spec(path@, n as nat),
{
    let mut id = path.to_owned();
    proof {
        reveal_strlit("-");
        assert("-"@ =~= seq!['-']);
    }
    id.append("-");
    let digits = to_decimal(n);
    id.append(digits.as_str());
    proof {
        assert(id@ =~= point_id_spec(path@, n as nat));
    }
    id
}

/// The payload stored beside a point's vector: which chunk it is and which
/// file it came from.
#[derive(Clone, Debug)]
pub struct PointPayload {
    pub index: u64,
    pub path: String,
}

/// One vector-store record: identifier, vector, payload.
#[derive(Clone, Debug)]
pub struct IndexPoint {
    pub id: String,
    pub vector: EmbeddingVector,
    pub payload: PointPayload,
}

/// Builds the points for a file: one per chunk, indexed contiguously from
/// zero, each carrying its derived identifier, its vector unchanged, and a
/// payload naming chunk index and source path.
pub fn build_points(path: &str, vectors: &Vec<EmbeddingVector>) -> (pts: Vec<IndexPoint>)
    ensures
        pts@.len() == vectors@.len(),
        forall|i: int| 0 <= i < pts@.len() ==> {
            &&& (#[trigger] pts@[i]).id@ == point_id_spec(path@, i as nat)
            &&& pts@[i].vector@ == vectors@[i]@
            &&& pts@[i].payload.index == i
            &&& pts@[i].payload.path@ == path@
        },
{
    let n = vectors.len();
    let mut pts: Vec<IndexPoint> = Vec::new();
    let mut i: usize = 0;
    while i < n
        invariant
            n == vectors@.len(),
            i <= n,
            pts@.len() == i,
            forall|j: int| 0 <= j < i ==> {
                &&& (#[trigger] pts@[j]).id@ == point_id_spec(path@, j as nat)
                &&& pts@[j].vector@ == vectors@[j]@
                &&& pts@[j].payload.index == j
                &&& pts@[j].payload.path@ == path@
            },
        decreases n - i,
    {
        let id = point_id(path, i as u64);
        let vector = vectors[i].clone();
        let payload = PointPayload { index: i as u64, path: path.to_owned() };
        pts.push(IndexPoint { id, vector, payload });
        i = i + 1;
    }
    pts
}

/// The identifiers of a list of points, in order.
pub fn ids_of_points(pts: &Vec<IndexPoint>) -> (ids: Vec<String>)
    ensures
        ids@.len() == pts@.len(),
        forall|i: int| 0 <= i < ids@.len() ==> (#[trigger] ids@[i])@ == pts@[i].id@,
{
    let n = pts.len();
    let mut ids: Vec<String> = Vec::new();
    let mut i: usize = 0;
    while i < n
        invariant
            n == pts@.len(),
            i <= n,
            ids@.len() == i,
            forall|j: int| 0 <= j < i ==> (#[trigger] ids@[j])@ == pts@[j].id@,
        decreases n - i,
    {
        ids.push(pts[i].id.clone());
        i = i + 1;
    }
    ids
}

/// The whole per-file planning step: validate the embedding response against
/// the configured dimension, then build the points. Exactly the well-formed
/// responses plan an upsert; a malformed one yields the declared error and
/// nothing else happens.
pub fn plan_upsert(path: &str, raw: Vec<EmbeddingVector>, dim: usize) -> (r: Result<
    Vec<IndexPoint>,
    IndexError,
>)
    ensures
        match r {
            Ok(pts) => {
                &&& response_valid(views_of(raw@), dim as nat)
                &&& pts@.len() == raw@.len()
                &&& pts@.len() >= 1
                &&& forall|i: int| 0 <= i < pts@.len() ==> {
                    &&& (#[trigger] pts@[i]).id@ == point_id_spec(path@, i as nat)
                    &&& pts@[i].vector@ == raw@[i]@
                    &&& pts@[i].vector@.len() == dim
                    &&& pts@[i].payload.index == i
                    &&& pts@[i].payload.path@ == path@
                }
            },
            Err(e) => !response_valid(views_of(raw@), dim as nat) && e
                == IndexError::EmbeddingMalformedResponse,
        },
{
    let accepted = crate::embedding::accept_embedding(raw, dim)?;
    let pts = build_points(path, &accepted);
    proof {
        assert(forall|i: int| 0 <= i < accepted@.len() ==> #[trigger] views_of(accepted@)[i]
            == accepted@[i]@);
    }
    Ok(pts)
}

} // verus!
