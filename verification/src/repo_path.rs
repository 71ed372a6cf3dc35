use vstd::prelude::*;
use vstd::string::*;

verus! {

/// How one character of an identifier is written inside a path segment: `/`
/// and `%` are percent-encoded, exactly as the URL layer's segment writer
/// does, so a segment can never introduce a separator and the encoding is
/// unambiguous. Every other character stands for itself; characters that are
/// reserved in a URL for other reasons are the transport's concern and are
/// encoded the same way wherever they stand.
pub open spec fn encode_char(c: char) -> Seq<char> {
    if c == '/' {
        seq!['%', '2', 'F']
    } else if c == '%' {
        seq!['%', '2', '5']
    } else {
        seq![c]
    }
}

/// An identifier as one encoded path segment.
pub open spec fn encoded(s: Seq<char>) -> Seq<char>
    decreases s.len(),
{
    if s.len() == 0 {
        Seq::empty()
    } else {
        encode_char(s[0]) + encoded(s.skip(1))
    }
}

/// How one character of a group identifier is written: a dot becomes the
/// segment separator; everything else is written as inside a segment.
pub open spec fn group_char(c: char) -> Seq<char> {
    if c == '.' {
        seq!['/']
    } else {
        encode_char(c)
    }
}

/// A group identifier as a path prefix: dot-separated, each segment encoded.
pub open spec fn group_path(s: Seq<char>) -> Seq<char>
    decreases s.len(),
{
    if s.len() == 0 {
        Seq::empty()
    } else {
        group_char(s[0]) + group_path(s.skip(1))
    }
}

/// The file name of a version's descriptor document.
pub open spec fn spec_file_name(artifact_id: Seq<char>, version: Seq<char>) -> Seq<char> {
    encoded(artifact_id) + seq!['-'] + encoded(version) + seq!['.', 'p', 'o', 'm']
}

/// The path of a version's descriptor document below the repository root:
/// the group's dot-separated segments, then the artifact, then the version,
/// then `<artifact>-<version>.pom`, every segment encoded as above.
pub open spec fn spec_document_path(
    group_id: Seq<char>,
    artifact_id: Seq<char>,
    version: Seq<char>,
) -> Seq<char> {
    group_path(group_id) + seq!['/'] + encoded(artifact_id) + seq!['/'] + encoded(version)
        + seq!['/'] + spec_file_name(artifact_id, version)
}

proof fn lemma_encoded_push(s: Seq<char>, c: char)
    ensures
        encoded(s.push(c)) == encoded(s) + encode_char(c),
    decreases s.len(),
{
    assert(s.push(c).len() == s.len() + 1);
    if s.len() == 0 {
        assert(s.push(c)[0] == c);
        assert(s.push(c).skip(1) =~= Seq::<char>::empty());
        assert(encoded(s.push(c)) == encode_char(c) + encoded(Seq::<char>::empty()));
        assert(encoded(s.push(c)) =~= encoded(s) + encode_char(c));
    } else {
        assert(s.push(c)[0] == s[0]);
        assert(s.push(c).skip(1) =~= s.skip(1).push(c));
        assert(encoded(s.push(c)) == encode_char(s[0]) + encoded(s.skip(1).push(c)));
        lemma_encoded_push(s.skip(1), c);
        assert(encoded(s.push(c)) =~= encoded(s) + encode_char(c));
    }
}

proof fn lemma_group_path_push(s: Seq<char>, c: char)
    ensures
        group_path(s.push(c)) == group_path(s) + group_char(c),
    decreases s.len(),
{
    assert(s.push(c).len() == s.len() + 1);
    if s.len() == 0 {
        assert(s.push(c)[0] == c);
        assert(s.push(c).skip(1) =~= Seq::<char>::empty());
        assert(group_path(s.push(c)) == group_char(c) + group_path(Seq::<char>::empty()));
        assert(group_path(s.push(c)) =~= group_path(s) + group_char(c));
    } else {
        assert(s.push(c)[0] == s[0]);
        assert(s.push(c).skip(1) =~= s.skip(1).push(c));
        assert(group_path(s.push(c)) == group_char(s[0]) + group_path(s.skip(1).push(c)));
        lemma_group_path_push(s.skip(1), c);
        assert(group_path(s.push(c)) =~= group_path(s) + group_char(c));
    }
}

/// Append one identifier to the path as an encoded segment.
#[verifier::loop_isolation(false)]
fn append_segment(r: &mut String, s: &str)
    ensures
        final(r)@ == old(r)@ + encoded(s@),
{
    proof {
        reveal_strlit("%2F");
        reveal_strlit("%25");
    }
    let n: usize = s.unicode_len();
    let mut i: usize = 0;
    while i < n
        invariant
            n == s@.len(),
            i <= n,
            r@ == old(r)@ + encoded(s@.take(i as int)),
        decreases n - i,
    {
        proof {
            assert(s@.take(i + 1) =~= s@.take(i as int).push(s@[i as int]));
            lemma_encoded_push(s@.take(i as int), s@[i as int]);
        }
        let c = s.get_char(i);
        if c == '/' {
            r.append("%2F");
        } else if c == '%' {
            r.append("%25");
        } else {
            let piece = s.substring_char(i, i + 1);
            r.append(piece);
        }
        proof {
            assert(r@ =~= old(r)@ + encoded(s@.take(i + 1)));
        }
        i = i + 1;
    }
    proof {
        assert(s@.take(n as int) =~= s@);
    }
}

/// Construct the document path for one work item. The construction is a
/// function of the three identifiers alone, so it is deterministic; by
/// `lemma_document_path_injective` it also tells any two distinct triples
/// apart.
#[verifier::loop_isolation(false)]
pub fn document_path(group_id: &str, artifact_id: &str, version: &str) -> (r: String)
    ensures
        r@ == spec_document_path(group_id@, artifact_id@, version@),
{
    proof {
        reveal_strlit("/");
        reveal_strlit("-");
        reveal_strlit(".pom");
        reveal_strlit("%2F");
        reveal_strlit("%25");
    }
    let glen: usize = group_id.unicode_len();
    let mut r: String = String::new();
    let mut i: usize = 0;
    while i < glen
        invariant
            glen == group_id@.len(),
            i <= glen,
            r@ == group_path(group_id@.take(i as int)),
        decreases glen - i,
    {
        proof {
            assert(group_id@.take(i + 1) =~= group_id@.take(i as int).push(group_id@[i as int]));
            lemma_group_path_push(group_id@.take(i as int), group_id@[i as int]);
        }
        let c = group_id.get_char(i);
        if c == '.' {
            r.append("/");
        } else if c == '/' {
            r.append("%2F");
        } else if c == '%' {
            r.append("%25");
        } else {
            let piece = group_id.substring_char(i, i + 1);
            r.append(piece);
        }
        proof {
            assert(r@ =~= group_path(group_id@.take(i + 1)));
        }
        i = i + 1;
    }
    proof {
        assert(group_id@.take(glen as int) =~= group_id@);
    }
    let ghost g: Seq<char> = group_id@;
    let ghost a: Seq<char> = artifact_id@;
    let ghost v: Seq<char> = version@;
    r.append("/");
    append_segment(&mut r, artifact_id);
    assert(r@ =~= group_path(g) + seq!['/'] + encoded(a));
    r.append("/");
    append_segment(&mut r, version);
    r.append("/");
    assert(r@ =~= group_path(g) + seq!['/'] + encoded(a) + seq!['/'] + encoded(v) + seq!['/']);
    append_segment(&mut r, artifact_id);
    r.append("-");
    append_segment(&mut r, version);
    r.append(".pom");
    assert(r@ =~= spec_document_path(g, a, v));
    r
}

/// No character of the sequence is a path separator.
spec fn slash_free(s: Seq<char>) -> bool {
    forall|i: int| 0 <= i < s.len() ==> s[i] != '/'
}

/// An encoded segment never holds a separator: the one character that could
/// be one is written `%2F`.
proof fn lemma_encoded_slash_free(s: Seq<char>)
    ensures
        slash_free(encoded(s)),
    decreases s.len(),
{
    if s.len() > 0 {
        lemma_encoded_slash_free(s.skip(1));
        assert forall|i: int| 0 <= i < encoded(s).len() implies encoded(s)[i] != '/' by {
            let head = encode_char(s[0]);
            if i < head.len() {
                assert(encoded(s)[i] == head[i]);
            } else {
                assert(encoded(s)[i] == encoded(s.skip(1))[i - head.len()]);
            }
        }
    }
}

proof fn lemma_slash_free_concat(x: Seq<char>, y: Seq<char>)
    requires
        slash_free(x),
        slash_free(y),
    ensures
        slash_free(x + y),
{
    assert forall|i: int| 0 <= i < (x + y).len() implies (x + y)[i] != '/' by {
        if i < x.len() {
            assert((x + y)[i] == x[i]);
        } else {
            assert((x + y)[i] == y[i - x.len()]);
        }
    }
}

/// If two paths of the form `s/t` agree and neither `t` holds a separator,
/// the prefixes agree and the final components agree.
proof fn lemma_component_split(s1: Seq<char>, t1: Seq<char>, s2: Seq<char>, t2: Seq<char>)
    requires
        slash_free(t1),
        slash_free(t2),
        s1 + seq!['/'] + t1 == s2 + seq!['/'] + t2,
    ensures
        s1 == s2,
        t1 == t2,
{
    let u = s1 + seq!['/'] + t1;
    assert(u.len() == s1.len() + 1 + t1.len());
    assert(u.len() == s2.len() + 1 + t2.len());
    if s1.len() < s2.len() {
        let j = s2.len() as int;
        assert((s2 + seq!['/'])[j] == '/');
        assert(u[j] == '/');
        assert(u[j] == t1[j - s1.len() - 1]);
        assert(false);
    } else if s1.len() > s2.len() {
        let j = s1.len() as int;
        assert((s1 + seq!['/'])[j] == '/');
        assert(u[j] == '/');
        assert(u[j] == t2[j - s2.len() - 1]);
        assert(false);
    } else {
        assert forall|i: int| 0 <= i < s1.len() implies s1[i] == s2[i] by {
            assert(u[i] == s1[i]);
            assert(u[i] == s2[i]);
        }
        assert(s1 =~= s2);
        assert forall|i: int| 0 <= i < t1.len() implies t1[i] == t2[i] by {
            assert(u[s1.len() + 1 + i] == t1[i]);
            assert(u[s2.len() + 1 + i] == t2[i]);
        }
        assert(t1 =~= t2);
    }
}

/// Read a segment's text back from its encoded form.
spec fn decode_seg(s: Seq<char>) -> Seq<char>
    decreases s.len(),
{
    if s.len() == 0 {
        Seq::empty()
    } else if s.len() >= 3 && s[0] == '%' && s[1] == '2' && s[2] == 'F' {
        seq!['/'] + decode_seg(s.skip(3))
    } else if s.len() >= 3 && s[0] == '%' && s[1] == '2' && s[2] == '5' {
        seq!['%'] + decode_seg(s.skip(3))
    } else {
        seq![s[0]] + decode_seg(s.skip(1))
    }
}

/// Encoding a segment loses nothing: decoding gives the identifier back, so
/// two identifiers with one encoding are one identifier.
proof fn lemma_decode_encoded(s: Seq<char>)
    ensures
        decode_seg(encoded(s)) == s,
    decreases s.len(),
{
    if s.len() > 0 {
        lemma_decode_encoded(s.skip(1));
        let e = encoded(s);
        if s[0] == '/' {
            assert(e[0] == '%' && e[1] == '2' && e[2] == 'F');
            assert(e.skip(3) =~= encoded(s.skip(1)));
            assert(decode_seg(e) =~= s);
        } else if s[0] == '%' {
            assert(e[0] == '%' && e[1] == '2' && e[2] == '5');
            assert(e.skip(3) =~= encoded(s.skip(1)));
            assert(decode_seg(e) =~= s);
        } else {
            assert(e[0] == s[0]);
            assert(e.skip(1) =~= encoded(s.skip(1)));
            assert(decode_seg(e) =~= s);
        }
    }
}

/// Read a group identifier back from its path prefix.
spec fn decode_group(s: Seq<char>) -> Seq<char>
    decreases s.len(),
{
    if s.len() == 0 {
        Seq::empty()
    } else if s.len() >= 3 && s[0] == '%' && s[1] == '2' && s[2] == 'F' {
        seq!['/'] + decode_group(s.skip(3))
    } else if s.len() >= 3 && s[0] == '%' && s[1] == '2' && s[2] == '5' {
        seq!['%'] + decode_group(s.skip(3))
    } else if s[0] == '/' {
        seq!['.'] + decode_group(s.skip(1))
    } else {
        seq![s[0]] + decode_group(s.skip(1))
    }
}

/// Writing a group identifier as a path prefix loses nothing either.
proof fn lemma_decode_group_path(s: Seq<char>)
    ensures
        decode_group(group_path(s)) == s,
    decreases s.len(),
{
    if s.len() > 0 {
        lemma_decode_group_path(s.skip(1));
        let e = group_path(s);
        if s[0] == '.' {
            assert(e[0] == '/');
            assert(e.skip(1) =~= group_path(s.skip(1)));
            assert(decode_group(e) =~= s);
        } else if s[0] == '/' {
            assert(e[0] == '%' && e[1] == '2' && e[2] == 'F');
            assert(e.skip(3) =~= group_path(s.skip(1)));
            assert(decode_group(e) =~= s);
        } else if s[0] == '%' {
            assert(e[0] == '%' && e[1] == '2' && e[2] == '5');
            assert(e.skip(3) =~= group_path(s.skip(1)));
            assert(decode_group(e) =~= s);
        } else {
            assert(e[0] == s[0]);
            assert(e.skip(1) =~= group_path(s.skip(1)));
            assert(decode_group(e) =~= s);
        }
    }
}

/// Document path construction is injective: two distinct identifier triples
/// always yield distinct paths, so a path can be traced back to the one
/// version it was built for. The segment encoding carries the whole claim:
/// a dot separates group segments only because a literal `/` or `%` inside
/// an identifier is written `%2F` or `%25`.
pub proof fn lemma_document_path_injective(
    g1: Seq<char>,
    a1: Seq<char>,
    v1: Seq<char>,
    g2: Seq<char>,
    a2: Seq<char>,
    v2: Seq<char>,
)
    requires
        spec_document_path(g1, a1, v1) == spec_document_path(g2, a2, v2),
    ensures
        g1 == g2,
        a1 == a2,
        v1 == v2,
{
    lemma_encoded_slash_free(a1);
    lemma_encoded_slash_free(v1);
    lemma_encoded_slash_free(a2);
    lemma_encoded_slash_free(v2);
    assert(slash_free(seq!['-'])) by {
        assert(seq!['-'][0] == '-');
    }
    assert(slash_free(seq!['.', 'p', 'o', 'm'])) by {
        assert(seq!['.', 'p', 'o', 'm'][0] == '.');
        assert(seq!['.', 'p', 'o', 'm'][1] == 'p');
        assert(seq!['.', 'p', 'o', 'm'][2] == 'o');
        assert(seq!['.', 'p', 'o', 'm'][3] == 'm');
    }
    lemma_slash_free_concat(encoded(a1), seq!['-']);
    lemma_slash_free_concat(encoded(a1) + seq!['-'], encoded(v1));
    lemma_slash_free_concat(encoded(a1) + seq!['-'] + encoded(v1), seq!['.', 'p', 'o', 'm']);
    lemma_slash_free_concat(encoded(a2), seq!['-']);
    lemma_slash_free_concat(encoded(a2) + seq!['-'], encoded(v2));
    lemma_slash_free_concat(encoded(a2) + seq!['-'] + encoded(v2), seq!['.', 'p', 'o', 'm']);
    lemma_component_split(
        group_path(g1) + seq!['/'] + encoded(a1) + seq!['/'] + encoded(v1),
        spec_file_name(a1, v1),
        group_path(g2) + seq!['/'] + encoded(a2) + seq!['/'] + encoded(v2),
        spec_file_name(a2, v2),
    );
    lemma_component_split(
        group_path(g1) + seq!['/'] + encoded(a1),
        encoded(v1),
        group_path(g2) + seq!['/'] + encoded(a2),
        encoded(v2),
    );
    lemma_component_split(group_path(g1), encoded(a1), group_path(g2), encoded(a2));
    lemma_decode_encoded(v1);
    lemma_decode_encoded(v2);
    lemma_decode_encoded(a1);
    lemma_decode_encoded(a2);
    lemma_decode_group_path(g1);
    lemma_decode_group_path(g2);
}

} // verus!
