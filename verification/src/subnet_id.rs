//! Hierarchical subnet identifiers.
//!
//! An identifier is a non-empty sequence of path segments, written as a
//! `/`-delimited path such as `/root/child1/child2`.  The first segment is
//! the root network; each further segment names a child of the subnet to its
//! left.  Identifiers are pure values: parsing, printing and the parent
//! relation involve no I/O.

use vstd::prelude::*;

use crate::error::Error;

verus! {

/// True of the characters a path segment may contain: ASCII letters and
/// digits.
pub open spec fn is_segment_char(c: char) -> bool {
    (97 <= c as u32 && c as u32 <= 122)  // 'a'..='z'
    || (65 <= c as u32 && c as u32 <= 90)  // 'A'..='Z'
    || (48 <= c as u32 && c as u32 <= 57)  // '0'..='9'
}

/// A well-formed segment: non-empty, made of segment characters only.
pub open spec fn segment_wf(seg: Seq<char>) -> bool {
    seg.len() > 0 && forall|i: int| 0 <= i < seg.len() ==> is_segment_char(#[trigger] seg[i])
}

/// A well-formed identifier: at least the root segment, every segment
/// well-formed.
pub open spec fn id_wf(segs: Seq<Seq<char>>) -> bool {
    segs.len() >= 1 && forall|i: int| 0 <= i < segs.len() ==> segment_wf(#[trigger] segs[i])
}

/// The text of an identifier: `/` before each segment, in order.
pub open spec fn render(segs: Seq<Seq<char>>) -> Seq<char>
    decreases segs.len(),
{
    if segs.len() == 0 {
        Seq::empty()
    } else {
        render(segs.drop_last()) + seq!['/'] + segs.last()
    }
}

/// The `/`-delimited path grammar, stated directly over the characters:
/// the text starts with `/`, every character is `/` or a segment character,
/// and every `/` is followed by a segment character.
pub open spec fn path_wf(s: Seq<char>) -> bool {
    &&& s.len() >= 2
    &&& s[0] == '/'
    &&& forall|i: int| 0 <= i < s.len() ==> s[i] == '/' || is_segment_char(#[trigger] s[i])
    &&& forall|i: int|
        0 <= i < s.len() && #[trigger] s[i] == '/' ==> i + 1 < s.len() && s[i + 1] != '/'
}

/// The parent relation at the level of segment sequences: strip the last
/// segment; the root (one segment) has no parent.
pub open spec fn parent_of(segs: Seq<Seq<char>>) -> Option<Seq<Seq<char>>> {
    if segs.len() > 1 {
        Some(segs.drop_last())
    } else {
        None
    }
}

/// A hierarchical subnet identifier: the ordered segments of its path.
pub struct SubnetIdentifier {
    segments: Vec<String>,
}

/// Each entry of the deep view of a vector of strings is the view of the
/// string at that index.
proof fn lemma_string_vec_deep_view(v: &Vec<String>)
    ensures
        v.deep_view().len() == v@.len(),
        forall|i: int| 0 <= i < v@.len() ==> #[trigger] v.deep_view()[i] == v@[i]@,
{
}

impl View for SubnetIdentifier {
    type V = Seq<Seq<char>>;

    closed spec fn view(&self) -> Seq<Seq<char>> {
        self.segments.deep_view()
    }
}

impl SubnetIdentifier {
    /// A well-formed identifier value.
    pub open spec fn wf(&self) -> bool {
        id_wf(self@)
    }

    /// How many segments the path has; the root has depth 1.
    pub fn depth(&self) -> (n: usize)
        ensures
            n == self@.len(),
    {
        self.segments.len()
    }

    /// The identifier one level up, or `None` at the root.
    pub fn parent(&self) -> (r: Option<SubnetIdentifier>)
        ensures
            r matches Some(p) ==> Some(p@) == parent_of(self@) && (self.wf() ==> p.wf()),
            r is None <==> parent_of(self@) is None,
    {
        if self.segments.len() <= 1 {
            None
        } else {
            let mut segs: Vec<String> = Vec::new();
            let end = self.segments.len() - 1;
            let mut i: usize = 0;
            while i < end
                invariant
                    end < self.segments.len(),
                    i <= end,
                    segs@ =~= self.segments@.subrange(0, i as int),
                decreases end - i,
            {
                segs.push(self.segments[i].clone());
                assert(segs@ =~= self.segments@.subrange(0, i + 1));
                i += 1;
            }
            proof {
                lemma_string_vec_deep_view(&segs);
                lemma_string_vec_deep_view(&self.segments);
                assert forall|j: int| 0 <= j < end implies segs.deep_view()[j] == self@[j] by {
                    assert(segs.deep_view()[j] == segs@[j]@);
                    assert(segs@[j] == self.segments@[j]);
                    assert(self@[j] == self.segments@[j]@);
                }
                assert(segs.deep_view() =~= self@.drop_last());
            }
            Some(SubnetIdentifier { segments: segs })
        }
    }

    /// The `/`-delimited text of the identifier.
    pub fn to_string(&self) -> (r: String)
        ensures
            r@ == render(self@),
    {
        proof {
            reveal_strlit("/");
        }
        let mut out = String::new();
        let mut i: usize = 0;
        while i < self.segments.len()
            invariant
                i <= self.segments.len(),
                out@ == render(self@.subrange(0, i as int)),
            decreases self.segments.len() - i,
        {
            out.append("/");
            out.append(self.segments[i].as_str());
            proof {
                reveal_strlit("/");
                lemma_string_vec_deep_view(&self.segments);
                assert(("/")@ =~= seq!['/']);
                let prefix = self@.subrange(0, i + 1);
                assert(prefix.drop_last() =~= self@.subrange(0, i as int));
                assert(prefix.last() == self@[i as int]);
                assert(out@ =~= render(prefix));
            }
            i += 1;
        }
        proof {
            assert(self@.subrange(0, self@.len() as int) =~= self@);
        }
        out
    }

    /// Parses a `/`-delimited path.  Returns `MalformedIdentifier` exactly
    /// when no well-formed identifier renders to the input.
    pub fn parse(s: &str) -> (r: Result<SubnetIdentifier, Error>)
        ensures
            r matches Ok(id) ==> id.wf() && render(id@) == s@,
            r matches Err(e) ==> e == Error::MalformedIdentifier && !path_wf(s@),
    {
        proof {
            reveal_strlit("/");
        }
        let n = s.unicode_len();
        if n == 0 {
            return Err(Error::MalformedIdentifier);
        }
        if s.get_char(0) != '/' {
            return Err(Error::MalformedIdentifier);
        }
        let mut segments: Vec<String> = Vec::new();
        let mut start: usize = 1;
        let mut i: usize = 1;
        while i < n
            invariant
                n == s@.len(),
                1 <= start <= i <= n,
                s@[0] == '/',
                s@[start - 1] == '/',
                id_wf(segments.deep_view()) || segments@.len() == 0,
                render(segments.deep_view()) == s@.subrange(0, start - 1),
                forall|j: int| start <= j < i ==> is_segment_char(#[trigger] s@[j]),
            decreases n - i,
        {
            let c = s.get_char(i);
            if c == '/' {
                if i == start {
                    // Two delimiters in a row, or a delimiter right after the
                    // leading one.
                    assert(!path_wf(s@)) by {
                        assert(s@[start - 1] == '/' && s@[start as int] == '/');
                    }
                    return Err(Error::MalformedIdentifier);
                }
                let seg = s.substring_char(start, i).to_owned();
                let ghost segs_old = segments.deep_view();
                segments.push(seg);
                proof {
                    lemma_string_vec_deep_view(&segments);
                    let piece = s@.subrange(start as int, i as int);
                    let segs_new = segments.deep_view();
                    assert(segs_new =~= segs_old.push(piece));
                    assert(segs_new.drop_last() =~= segs_old);
                    assert(segment_wf(piece));
                    assert(render(segs_new) =~= s@.subrange(0, i as int)) by {
                        assert(render(segs_new) == render(segs_old) + seq!['/'] + piece);
                        assert(s@.subrange(0, start - 1) + seq!['/'] + piece =~= s@.subrange(
                            0,
                            i as int,
                        ));
                    }
                    assert(id_wf(segs_new)) by {
                        assert(forall|j: int|
                            0 <= j < segs_old.len() ==> #[trigger] segs_new[j] == segs_old[j]);
                        assert(segs_new.last() == piece);
                    }
                }
                start = i + 1;
            } else {
                let u = c as u32;
                let is_seg = (97 <= u && u <= 122) || (65 <= u && u <= 90) || (48 <= u && u
                    <= 57);
                if !is_seg {
                    assert(!path_wf(s@)) by {
                        assert(s@[i as int] != '/' && !is_segment_char(s@[i as int]));
                    }
                    return Err(Error::MalformedIdentifier);
                }
            }
            i += 1;
        }
        if start >= n {
            // The text ends in a delimiter (or is just the leading one).
            assert(!path_wf(s@)) by {
                assert(s@[n - 1] == '/');
            }
            return Err(Error::MalformedIdentifier);
        }
        let seg = s.substring_char(start, n).to_owned();
        let ghost segs_old = segments.deep_view();
        segments.push(seg);
        proof {
            lemma_string_vec_deep_view(&segments);
            let piece = s@.subrange(start as int, n as int);
            let segs_new = segments.deep_view();
            assert(segs_new =~= segs_old.push(piece));
            assert(segs_new.drop_last() =~= segs_old);
            assert(segment_wf(piece));
            assert(render(segs_new) =~= s@) by {
                assert(render(segs_new) == render(segs_old) + seq!['/'] + piece);
                assert(s@.subrange(0, start - 1) + seq!['/'] + piece =~= s@.subrange(0, n as int));
                assert(s@.subrange(0, n as int) =~= s@);
            }
            assert(id_wf(segs_new)) by {
                assert(forall|j: int|
                    0 <= j < segs_old.len() ==> #[trigger] segs_new[j] == segs_old[j]);
                assert(segs_new.last() == piece);
            }
        }
        Ok(SubnetIdentifier { segments })
    }
}

impl PartialEq for SubnetIdentifier {
    /// Two identifiers are equal exactly when their segment sequences are.
    fn eq(&self, other: &Self) -> (r: bool) {
        proof {
            lemma_string_vec_deep_view(&self.segments);
            lemma_string_vec_deep_view(&other.segments);
        }
        if self.segments.len() != other.segments.len() {
            proof {
                assert(self@.len() != other@.len());
            }
            return false;
        }
        let mut i: usize = 0;
        while i < self.segments.len()
            invariant
                i <= self.segments.len(),
                self@.len() == other@.len() == self.segments.len(),
                self@ == self.segments.deep_view() && other@ == other.segments.deep_view(),
                forall|j: int| 0 <= j < self@.len() ==> #[trigger] self@[j] == self.segments@[j]@,
                forall|j: int|
                    0 <= j < other@.len() ==> #[trigger] other@[j] == other.segments@[j]@,
                forall|j: int| 0 <= j < i ==> self@[j] == other@[j],
            decreases self.segments.len() - i,
        {
            if !self.segments[i].eq(&other.segments[i]) {
                proof {
                    assert(self@[i as int] != other@[i as int]);
                }
                return false;
            }
            i += 1;
        }
        proof {
            assert(self@ =~= other@);
        }
        true
    }
}

impl Eq for SubnetIdentifier {

}

impl vstd::std_specs::cmp::PartialEqSpecImpl for SubnetIdentifier {
    open spec fn obeys_eq_spec() -> bool {
        true
    }

    open spec fn eq_spec(&self, other: &Self) -> bool {
        self@ == other@
    }
}

/// Rendering a well-formed identifier always yields a text of the path
/// grammar.  Together with the contract of `parse` this says that parsing
/// cannot reject the text of a well-formed identifier.
pub proof fn lemma_render_path_wf(segs: Seq<Seq<char>>)
    requires
        id_wf(segs),
    ensures
        path_wf(render(segs)),
    decreases segs.len(),
{
    let s = render(segs);
    let last = segs.last();
    if segs.len() == 1 {
        assert(segs.drop_last().len() == 0);
        assert(render(segs.drop_last()) == Seq::<char>::empty());
        assert(s =~= seq!['/'] + last);
        assert(s[0] == '/');
        assert(forall|i: int| 1 <= i < s.len() ==> #[trigger] s[i] == last[i - 1]);
        assert(segment_wf(last));
        assert(forall|i: int| 0 <= i < s.len() ==> s[i] == '/' || is_segment_char(
            #[trigger] s[i],
        ));
        assert(forall|i: int| 0 <= i < s.len() && #[trigger] s[i] == '/' ==> i == 0);
        assert(is_segment_char(s[1]));
    } else {
        let prefix = render(segs.drop_last());
        lemma_render_path_wf(segs.drop_last());
        assert(s =~= prefix + seq!['/'] + last);
        let p = prefix.len() as int;
        assert(forall|i: int| 0 <= i < p ==> #[trigger] s[i] == prefix[i]);
        assert(s[p] == '/');
        assert(forall|i: int| p < i < s.len() ==> #[trigger] s[i] == last[i - p - 1]);
        assert(segment_wf(last));
        // Every character is a delimiter or a segment character.
        assert(forall|i: int| 0 <= i < s.len() ==> s[i] == '/' || is_segment_char(
            #[trigger] s[i],
        ));
        // The last character of the prefix is not a delimiter, so the
        // delimiter at `p` is well placed, and delimiters inside the prefix
        // keep their followers.
        assert(prefix[p - 1] != '/');
        assert forall|i: int| 0 <= i < s.len() && #[trigger] s[i] == '/' implies i + 1 < s.len()
            && s[i + 1] != '/' by {
            if i < p - 1 {
                assert(prefix[i] == '/');
                assert(s[i + 1] == prefix[i + 1]);
            } else if i == p {
                assert(s[i + 1] == last[0]);
                assert(is_segment_char(last[0]));
            }
        }
    }
}

/// The index of the last delimiter of a rendered identifier: everything
/// after it is the last segment.
proof fn lemma_render_last_delim(segs: Seq<Seq<char>>)
    requires
        id_wf(segs),
    ensures
        render(segs).len() == render(segs.drop_last()).len() + 1 + segs.last().len(),
        render(segs)[render(segs.drop_last()).len() as int] == '/',
        forall|i: int|
            render(segs.drop_last()).len() < i < render(segs).len() ==> #[trigger] render(
                segs,
            )[i] == segs.last()[i - render(segs.drop_last()).len() - 1]
                && is_segment_char(render(segs)[i]),
        forall|i: int|
            0 <= i < render(segs.drop_last()).len() ==> #[trigger] render(segs)[i] == render(
                segs.drop_last(),
            )[i],
{
    let s = render(segs);
    let prefix = render(segs.drop_last());
    let last = segs.last();
    assert(s =~= prefix + seq!['/'] + last);
    assert(segment_wf(last));
}

/// Rendering is injective on well-formed identifiers: equal texts come from
/// equal segment sequences.  Together with the contracts of `to_string` and
/// `parse` this gives the round trip: parsing the text of an identifier
/// returns that identifier.
pub proof fn lemma_render_injective(a: Seq<Seq<char>>, b: Seq<Seq<char>>)
    requires
        id_wf(a),
        id_wf(b),
        render(a) == render(b),
    ensures
        a == b,
    decreases a.len(),
{
    let s = render(a);
    let pa = render(a.drop_last()).len() as int;
    let pb = render(b.drop_last()).len() as int;
    lemma_render_last_delim(a);
    lemma_render_last_delim(b);
    // The last delimiter sits at the same index in both renderings: past
    // its own delimiter a rendering holds segment characters only.
    assert(pa == pb) by {
        if pa < pb {
            assert(render(b)[pb] == '/');
            assert(is_segment_char(render(a)[pb]));
        } else if pb < pa {
            assert(render(a)[pa] == '/');
            assert(is_segment_char(render(b)[pa]));
        }
    }
    assert(a.last() =~= b.last()) by {
        assert(a.last().len() == s.len() - pa - 1 == b.last().len());
        assert(forall|j: int| 0 <= j < a.last().len() ==> #[trigger] a.last()[j] == s[pa + 1 + j]
            == b.last()[j]);
    }
    if a.len() == 1 {
        assert(render(a.drop_last()).len() == 0);
        // A rendering of one or more segments is never empty, so `b` has
        // exactly one segment too.
        if b.len() > 1 {
            lemma_render_last_delim(b.drop_last());
        }
        assert(b.len() == 1);
        assert(a =~= b);
    } else {
        if b.len() == 1 {
            lemma_render_last_delim(a.drop_last());
        }
        assert(b.len() > 1);
        assert(render(a.drop_last()) =~= render(b.drop_last())) by {
            assert(forall|i: int| 0 <= i < pa ==> #[trigger] render(a.drop_last())[i] == s[i]
                == render(b.drop_last())[i]);
        }
        lemma_render_injective(a.drop_last(), b.drop_last());
        assert(a =~= a.drop_last().push(a.last()));
        assert(b =~= b.drop_last().push(b.last()));
    }
}

/// The round trip, at the level of the specs: the text of a well-formed
/// identifier is of the path grammar, and no other well-formed identifier
/// shares that text.  With the contracts of `to_string` and `parse`,
/// parsing the text of an identifier must return exactly that identifier.
pub proof fn lemma_identifier_round_trip(a: Seq<Seq<char>>, b: Seq<Seq<char>>)
    requires
        id_wf(a),
    ensures
        path_wf(render(a)),
        id_wf(b) && render(b) == render(a) ==> a == b,
{
    lemma_render_path_wf(a);
    if id_wf(b) && render(b) == render(a) {
        lemma_render_injective(a, b);
    }
}

/// Taking the parent twice from a child two levels below a subnet lands on
/// that subnet, and the root has no parent.
pub proof fn lemma_parent_of_depth_two(p: Seq<Seq<char>>, a: Seq<char>, b: Seq<char>)
    requires
        p.len() >= 1,
    ensures
        parent_of(p.push(a).push(b)) == Some(p.push(a)),
        parent_of(p.push(a)) == Some(p),
        p.len() == 1 ==> parent_of(p) is None,
{
    assert(p.push(a).push(b).drop_last() =~= p.push(a));
    assert(p.push(a).drop_last() =~= p);
}

} // verus!
