//! Where the answers of a node's wizard are kept.
use vstd::prelude::*;
use crate::text::{concat, ends_with, starts_with, str_starts_with};

verus! {

/// The two files that hold the answers of one mode of one node.
#[derive(Debug)]
pub struct AnswersPaths {
    pub json: String,
    pub cbor: String,
}

/// `Path::join` on Unix paths: an absolute `b` replaces `a`; otherwise `b`
/// follows `a`, with one `/` between them unless `a` is empty or already
/// ends with one.
pub open spec fn join_v(a: Seq<char>, b: Seq<char>) -> Seq<char> {
    if starts_with(b, "/"@) {
        b
    } else if a.len() == 0 || ends_with(a, "/"@) {
        a + b
    } else {
        a + "/"@ + b
    }
}

pub fn path_join(a: &str, b: &str) -> (r: String)
    ensures
        r@ == join_v(a@, b@),
{
    proof {
        reveal_strlit("/");
        assert("/"@ =~= seq!['/']);
    }
    if str_starts_with(b, "/") {
        return String::from_str(b);
    }
    let n = a.unicode_len();
    if n == 0 {
        return concat(a, b);
    }
    let last = a.get_char(n - 1);
    proof {
        assert(a@.subrange(a@.len() - 1, a@.len() as int) =~= seq![last]);
    }
    if last == '/' {
        return concat(a, b);
    }
    proof {
        assert(seq![last][0] != seq!['/'][0]);
        assert(!ends_with(a@, "/"@));
    }
    let mut s = String::from_str(a);
    s.append("/");
    s.append(b);
    s
}

/// The answers directory is `<base>/<flow>/<node>`; the files are
/// `<mode>.answers.json` and `<mode>.answers.cbor` in it.
pub fn answers_paths(base_dir: &str, flow_id: &str, node_id: &str, mode: &str) -> (r: AnswersPaths)
    ensures
        r.json@ == join_v(join_v(join_v(base_dir@, flow_id@), node_id@), mode@ + ".answers.json"@),
        r.cbor@ == join_v(join_v(join_v(base_dir@, flow_id@), node_id@), mode@ + ".answers.cbor"@),
{
    let d1 = path_join(base_dir, flow_id);
    let dir = path_join(d1.as_str(), node_id);
    let jf = concat(mode, ".answers.json");
    let cf = concat(mode, ".answers.cbor");
    AnswersPaths { json: path_join(dir.as_str(), jf.as_str()), cbor: path_join(dir.as_str(), cf.as_str()) }
}

} // verus!
