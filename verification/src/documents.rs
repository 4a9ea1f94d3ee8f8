//! Document-at-a-time parsing: [`parse_stream`], [`parse_document`] and the [`Documents`]
//! stream behind both.
use vstd::prelude::*;

use crate::error::{spec_excerpt, Error, OwnedParseError};
use crate::parse::document::{
    lemma_stream_from_acc, spec_stream_from, spec_yaml_stream, stream_head, stream_step, StreamStep,
};
use crate::parse::input::{ParseState, Text};
use crate::resolve::{
    lemma_same_but_tags_spans, resolve_node, roots_view, spec_resolve_node,
    spec_resolve_nodes, Failure,
};
use crate::text::{byte_len, byte_offset};
use crate::value::{spans_in, Content, Document, Node, NodeV, Span, StandardTag, Stream, Tag};

verus! {

/// Which part of the stream [`Documents::next`] resumes at.
enum Phase {
    /// The stream's head (document prefixes and maybe a document), parsed once.
    Head,
    /// The trailing group, one element per step.
    Body,
    /// The stream ended, or failed.
    Done,
}

/// What reading the document `n` of the stream of `source` hands out: its tag resolution, a
/// failure being located in `source`.
pub open spec fn delivered(source: Seq<char>, n: NodeV, x: Result<Document, Error>) -> bool {
    match x {
        Ok(d) => spec_resolve_node(n) == Ok::<NodeV, (Failure, Option<Span>)>(d.0@),
        Err(Error::Resolve(e)) => {
            &&& spec_resolve_node(n) == Err::<NodeV, (Failure, Option<Span>)>(
                (e.spec_kind(), e.spec_span()),
            )
            &&& e.spec_excerpt() == (match e.spec_span() {
                Some(sp) => Some(spec_excerpt(source, sp.spec_start() as int, sp.spec_end() as int)),
                None => None,
            })
        },
        _ => false,
    }
}

/// The failure when the stream of `source` stops at position `end`, before its end: a parse
/// error with no message of its own, pointing at that position.
pub open spec fn stopped_at(source: Seq<char>, end: int, x: Result<Document, Error>) -> bool {
    &&& x matches Err(Error::Parse(pe))
    &&& x->Err_0->Parse_0.spec_message() == Seq::<char>::empty()
    &&& x->Err_0->Parse_0.spec_excerpt() == spec_excerpt(
        source,
        byte_offset(source, end) as int,
        byte_offset(source, end) as int,
    )
}

/// The documents of a YAML input, each parsed only when it is asked for.
///
/// Created by [`parse_stream`]. A parse failure is yielded as a single `Err` item and ends the
/// stream: the position after a failure isn't meaningful, so there is nothing to resume from. A
/// tag-resolution failure does not end it: that document parsed fine, so the ones after it are
/// still reachable.
pub struct Documents {
    source: String,
    text: Text,
    pos: usize,
    phase: Phase,
    state: ParseState,
}

impl Documents {
    #[verifier::type_invariant]
    closed spec fn wf(self) -> bool {
        &&& self.pos <= self.text.view().len()
        &&& self.text.view() == self.source@
        &&& byte_len(self.source@) < usize::MAX
        &&& self.state.anchors_within(self.source@)
    }

    /// Whether the stream has ended: every later [`next`](Self::next) returns `None`.
    pub closed spec fn done(self) -> bool {
        self.phase is Done
    }

    /// How much of the stream is left: what every document handed out diminishes.
    pub closed spec fn measure(self) -> nat {
        (2 * (self.text.view().len() - self.pos) + if self.phase is Head {
            1int
        } else {
            0int
        }) as nat
    }

    /// The input the documents are parsed from.
    pub closed spec fn spec_source(self) -> Seq<char> {
        self.source@
    }

    /// The roots of the documents of the stream not handed out yet, as the grammar reads them.
    pub closed spec fn remaining(self) -> Seq<NodeV> {
        match self.phase {
            Phase::Head => spec_yaml_stream(self.source@, self.pos as int).0,
            Phase::Body => spec_stream_from(self.source@, self.pos as int, Seq::empty()).0,
            Phase::Done => Seq::empty(),
        }
    }

    /// Where the stream stops, as the grammar reads it.
    pub closed spec fn stream_end(self) -> int {
        match self.phase {
            Phase::Head => spec_yaml_stream(self.source@, self.pos as int).1,
            Phase::Body => spec_stream_from(self.source@, self.pos as int, Seq::empty()).1,
            Phase::Done => self.pos as int,
        }
    }

    /// The input the documents are parsed from.
    pub fn source(&self) -> (r: &str)
        ensures
            r@ == self.spec_source(),
    {
        self.source.as_str()
    }

    /// Resolves a parsed document, locating a resolution failure in the input.
    fn finish(&self, doc: Document) -> (r: Result<Document, Error>)
        requires
            spans_in(doc.0@, self.spec_source()),
        ensures
            delivered(self.spec_source(), doc.0@, r),
            r matches Err(e) ==> e is Resolve,
            r matches Ok(d) ==> spans_in(d.0@, self.spec_source()),
    {
        proof {
            use_type_invariant(self);
        }
        let ghost before = doc.0@;
        match resolve_node(doc.0) {
            Ok(n) => {
                proof {
                    lemma_same_but_tags_spans(before, n@, self.spec_source());
                }
                Ok(Document::new(n))
            },
            Err(e) => Err(Error::Resolve(e.located(self.source.as_str()))),
        }
    }

    /// A parse failure at character position `pos`.
    fn fail_at(&self, pos: usize, message: &str) -> (r: Error)
        requires
            pos <= self.text.view().len(),
        ensures
            r is Parse,
            r->Parse_0.spec_message() == message@,
            r->Parse_0.spec_excerpt() == spec_excerpt(
                self.spec_source(),
                byte_offset(self.spec_source(), pos as int) as int,
                byte_offset(self.spec_source(), pos as int) as int,
            ),
    {
        proof {
            use_type_invariant(self);
        }
        let offset = self.text.offset(pos);
        Error::Parse(OwnedParseError::from_parts(self.source.as_str(), offset, message.to_owned()))
    }

    /// The next document, resolved; `None` once the stream has ended. A parse failure is the
    /// last item.
    pub fn next(&mut self) -> (r: Option<Result<Document, Error>>)
        ensures
            old(self).done() ==> r is None,
            r is None ==> final(self).done(),
            r matches Some(Err(e)) ==> e is Parse || e is Resolve,
            r matches Some(Err(e)) ==> (e is Parse <==> final(self).done()),
            r matches Some(Ok(_)) ==> !final(self).done(),
            (r is Some && !final(self).done()) ==> final(self).measure() < old(self).measure(),
            final(self).spec_source() == old(self).spec_source(),
            r matches Some(Ok(d)) ==> spans_in(d.0@, final(self).spec_source()),
            !old(self).done() && old(self).remaining().len() > 0 ==> (r matches Some(x)
                && delivered(old(self).spec_source(), old(self).remaining()[0], x)),
            !old(self).done() && old(self).remaining().len() > 0 && !final(self).done() ==> {
                &&& final(self).remaining() == old(self).remaining().drop_first()
                &&& final(self).stream_end() == old(self).stream_end()
            },
            !old(self).done() && old(self).remaining().len() == 0 ==> final(self).done() && (
            match r {
                None => old(self).stream_end() == old(self).spec_source().len(),
                Some(x) => old(self).stream_end() != old(self).spec_source().len() && stopped_at(
                    old(self).spec_source(),
                    old(self).stream_end(),
                    x,
                ),
            }),
    {
        proof {
            use_type_invariant(&*self);
        }
        loop
            invariant
                !old(self).done() ==> {
                    &&& !(self.phase is Done)
                    &&& self.remaining() == old(self).remaining()
                    &&& self.stream_end() == old(self).stream_end()
                },
                self.pos <= self.text.view().len(),
                self.text.view() == self.source@,
                byte_len(self.source@) < usize::MAX,
                self.state.anchors_within(self.source@),
                self.source@ == old(self).source@,
                old(self).done() ==> self.phase is Done,
                self.measure() <= old(self).measure(),
            decreases self.text.view().len() - self.pos, (if self.phase is Head {
                1nat
            } else {
                0nat
            }),
        {
            match self.phase {
                Phase::Done => return None,
                Phase::Head => {
                    self.phase = Phase::Body;
                    let mut state = ParseState::new();
                    std::mem::swap(&mut state, &mut self.state);
                    let (doc, q) = stream_head(&self.text, &mut state, self.pos);
                    std::mem::swap(&mut state, &mut self.state);
                    proof {
                        let head = match &doc {
                            Some(d) => seq![d.0@],
                            None => Seq::<NodeV>::empty(),
                        };
                        lemma_stream_from_acc(self.source@, q as int, head);
                        let rest = spec_stream_from(self.source@, q as int, Seq::empty()).0;
                        assert(Seq::<NodeV>::empty() + rest =~= rest);
                        if doc is Some {
                            assert((head + rest).drop_first() =~= rest);
                        }
                    }
                    self.pos = q;
                    match doc {
                        Some(d) => {
                            return Some(self.finish(d));
                        },
                        None => {},
                    }
                },
                Phase::Body => {
                    let mut state = ParseState::new();
                    std::mem::swap(&mut state, &mut self.state);
                    let (step, q) = stream_step(&self.text, &mut state, self.pos);
                    std::mem::swap(&mut state, &mut self.state);
                    proof {
                        if let StreamStep::Document(d) = &step {
                            let one = Seq::<NodeV>::empty().push(d.0@);
                            lemma_stream_from_acc(self.source@, q as int, one);
                            let rest = spec_stream_from(self.source@, q as int, Seq::empty()).0;
                            assert((one + rest).drop_first() =~= rest);
                        }
                    }
                    match step {
                        StreamStep::Document(d) => {
                            self.pos = q;
                            return Some(self.finish(d));
                        },
                        StreamStep::Skipped => {
                            self.pos = q;
                        },
                        StreamStep::End => {
                            self.phase = Phase::Done;
                            if self.pos == self.text.len() {
                                return None;
                            }
                            // Something is left that is no document: fail where the stream
                            // stopped, with no message of its own.
                            proof {
                                reveal_strlit("");
                                assert(""@ =~= Seq::<char>::empty());
                            }
                            let e = self.fail_at(self.pos, "");
                            assert(e->Parse_0.spec_message() == Seq::<char>::empty());
                            return Some(Err(e));
                        },
                    }
                },
            }
        }
    }
}

/// Parses `input` into its documents, one parsed at a time. Each is fully tag-resolved.
pub fn parse_stream(input: &str) -> (r: Documents)
    requires
        byte_len(input@) < usize::MAX,
    ensures
        !r.done(),
        r.spec_source() == input@,
        r.remaining() == spec_yaml_stream(input@, 0).0,
        r.stream_end() == spec_yaml_stream(input@, 0).1,
{
    let source = input.to_owned();
    let text = Text::new(input);
    Documents { source, text, pos: 0, phase: Phase::Head, state: ParseState::new() }
}

/// The implicit document of an empty stream: an empty node tagged null, parsed from nowhere.
pub open spec fn is_null_document(d: Document) -> bool {
    &&& d.0.value == Content::Empty
    &&& d.0.tag == Tag::Standard(StandardTag::Null)
    &&& d.0.span.spec_get() is None
}

/// The implicit document of an empty stream: an empty node tagged null.
pub fn null_document() -> (r: Document)
    ensures
        is_null_document(r),
{
    Document::new(Node::new(Content::Empty, Tag::Standard(StandardTag::Null)))
}

/// The tags of the document `n` resolve.
pub open spec fn resolves(n: NodeV) -> bool {
    spec_resolve_node(n) is Ok
}

/// What a stream whose documents not handed out yet are `rem`, stopping at `end` in `source`,
/// reduces to as a single document (`r`): the null document when there are none, the one there
/// is, the failure met while reading either, or [`Error::MultipleDocuments`] at a second one
/// that resolves.
pub open spec fn single_outcome(
    source: Seq<char>,
    rem: Seq<NodeV>,
    end: int,
    r: Result<Document, Error>,
) -> bool {
    if rem.len() == 0 {
        if end == source.len() {
            r matches Ok(d) && is_null_document(d)
        } else {
            stopped_at(source, end, r)
        }
    } else if !resolves(rem[0]) {
        delivered(source, rem[0], r)
    } else if rem.len() == 1 {
        if end == source.len() {
            delivered(source, rem[0], r)
        } else {
            stopped_at(source, end, r)
        }
    } else if !resolves(rem[1]) {
        delivered(source, rem[1], r)
    } else {
        r matches Err(Error::MultipleDocuments)
    }
}

/// Reduces a stream to its single document: none at all is the null document, one is that one,
/// a failure while looking for either is that failure, and a second document is
/// [`Error::MultipleDocuments`].
pub fn single_document(documents: Documents) -> (r: Result<Document, Error>)
    requires
        !documents.done(),
    ensures
        single_outcome(documents.spec_source(), documents.remaining(), documents.stream_end(), r),
        r matches Ok(d) ==> spans_in(d.0@, documents.spec_source()) || is_null_document(d),
        r matches Err(e) ==> e is Parse || e is Resolve || e is MultipleDocuments,
{
    let mut documents = documents;
    let first = match documents.next() {
        None => return Ok(null_document()),
        Some(Err(e)) => return Err(e),
        Some(Ok(d)) => d,
    };
    match documents.next() {
        None => Ok(first),
        Some(Err(e)) => Err(e),
        Some(Ok(_)) => Err(Error::MultipleDocuments),
    }
}

/// Parses `input`, which must hold exactly one document, into that document. An input with no
/// documents at all (empty, or nothing but comments) yields the null document; one holding more
/// than one yields [`Error::MultipleDocuments`].
pub fn parse_document(input: &str) -> (r: Result<Document, Error>)
    requires
        byte_len(input@) < usize::MAX,
    ensures
        single_outcome(input@, spec_yaml_stream(input@, 0).0, spec_yaml_stream(input@, 0).1, r),
        r matches Ok(d) ==> spans_in(d.0@, input@) || is_null_document(d),
        r matches Err(e) ==> e is Parse || e is Resolve || e is MultipleDocuments,
{
    single_document(parse_stream(input))
}

/// Parses `input` into its whole stream, then resolves it: the first parse failure (where the
/// documents stop before the end of the input), else the first resolution failure.
pub fn parse(input: &str) -> (r: Result<Stream, Error>)
    requires
        byte_len(input@) < usize::MAX,
    ensures
        ({
            let (docs, end) = spec_yaml_stream(input@, 0);
            &&& r is Ok <==> (end == input@.len() && spec_resolve_nodes(docs) is Ok)
            &&& r matches Ok(st) ==> spec_resolve_nodes(docs) == Ok::<
                Seq<NodeV>,
                (Failure, Option<Span>),
            >(roots_view(st.0@))
            &&& r matches Err(Error::Resolve(e)) ==> spec_resolve_nodes(docs) == Err::<
                Seq<NodeV>,
                (Failure, Option<Span>),
            >((e.spec_kind(), e.spec_span()))
            &&& r matches Err(Error::Parse(_)) ==> end != input@.len()
        }),
        r matches Ok(s) ==> forall|k: int|
            0 <= k < s.0@.len() ==> spans_in(#[trigger] s.0@[k].0@, input@),
        r matches Err(e) ==> e is Parse || e is Resolve,
{
    let ghost docs = spec_yaml_stream(input@, 0).0;
    let ghost end = spec_yaml_stream(input@, 0).1;
    let mut documents = parse_stream(input);
    let mut out: Vec<Document> = Vec::new();
    let mut resolve_failure: Option<Error> = None;
    let ghost mut i: int = 0;
    proof {
        assert(docs.skip(0) =~= docs);
        assert(docs.take(0) =~= Seq::<NodeV>::empty());
        assert(roots_view(out@) =~= Seq::<NodeV>::empty());
    }
    loop
        invariant_except_break
            !documents.done(),
            documents.remaining() == docs.skip(i),
            documents.stream_end() == end,
        invariant
            documents.spec_source() == input@,
            docs == spec_yaml_stream(input@, 0).0,
            end == spec_yaml_stream(input@, 0).1,
            0 <= i <= docs.len(),
            forall|k: int|
                0 <= k < out@.len() ==> spans_in(#[trigger] out@[k].0@, input@),
            match resolve_failure {
                None => spec_resolve_nodes(docs.take(i)) == Ok::<
                    Seq<NodeV>,
                    (Failure, Option<Span>),
                >(roots_view(out@)),
                Some(Error::Resolve(e)) => spec_resolve_nodes(docs.take(i)) == Err::<
                    Seq<NodeV>,
                    (Failure, Option<Span>),
                >((e.spec_kind(), e.spec_span())),
                Some(_) => false,
            },
        ensures
            i == docs.len(),
            end == input@.len(),
            docs == spec_yaml_stream(input@, 0).0,
            end == spec_yaml_stream(input@, 0).1,
            forall|k: int|
                0 <= k < out@.len() ==> spans_in(#[trigger] out@[k].0@, input@),
            match resolve_failure {
                None => spec_resolve_nodes(docs.take(i)) == Ok::<
                    Seq<NodeV>,
                    (Failure, Option<Span>),
                >(roots_view(out@)),
                Some(Error::Resolve(e)) => spec_resolve_nodes(docs.take(i)) == Err::<
                    Seq<NodeV>,
                    (Failure, Option<Span>),
                >((e.spec_kind(), e.spec_span())),
                Some(_) => false,
            },
        decreases documents.measure(),
    {
        let ghost rem = documents.remaining();
        proof {
            if i < docs.len() {
                assert(rem[0] == docs[i]);
                assert(docs.take(i + 1).drop_last() =~= docs.take(i));
                assert(docs.take(i + 1).last() == docs[i]);
                assert(rem.drop_first() =~= docs.skip(i + 1));
            }
        }
        match documents.next() {
            None => {
                proof {
                    assert(docs.take(i) =~= docs);
                }
                break ;
            },
            Some(Ok(d)) => {
                let ghost before = out@;
                out.push(d);
                proof {
                    assert(roots_view(out@) =~= roots_view(before).push(d.0@));
                    i = i + 1;
                }
            },
            Some(Err(Error::Resolve(e))) => {
                if resolve_failure.is_none() {
                    resolve_failure = Some(Error::Resolve(e));
                }
                proof {
                    i = i + 1;
                }
            },
            Some(Err(e)) => {
                return Err(e);
            },
        }
    }
    match resolve_failure {
        Some(e) => Err(e),
        None => Ok(Stream(out)),
    }
}

} // verus!
