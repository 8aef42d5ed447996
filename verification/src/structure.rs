use vstd::prelude::*;

use vstd::string::StringSliceAdditionalSpecFns;

use crate::error::{unit_result, ErrorModel, SvgoError, MAX_SVG_DEPTH, MAX_SVG_ELEMENTS};

verus! {

/// Where the structure scan stands between two bytes.
pub enum ScanMode {
    /// Reading markup and text.
    Markup,
    /// Inside `<!...` other than a CDATA section, which ends at a `>` right
    /// after a `-`.
    Declaration,
    /// Inside `<![CDATA[...`, which ends at `]]>`.
    CData,
    /// Inside `<?...`, which ends at the next `>`.
    Instruction,
}

/// The state of the structure scan: the open-element depth, the deepest depth
/// seen, the number of elements counted, and what is known of the current tag.
pub struct ScanState {
    pub depth: nat,
    pub max_depth: nat,
    pub count: nat,
    pub in_tag: bool,
    pub is_closing: bool,
    pub is_self_closing: bool,
    pub mode: ScanMode,
}

/// The state before the first byte.
pub open spec fn initial_scan_state() -> ScanState {
    ScanState {
        depth: 0,
        max_depth: 0,
        count: 0,
        in_tag: false,
        is_closing: false,
        is_self_closing: false,
        mode: ScanMode::Markup,
    }
}

/// The state after a `>` that ends a tag (without the limit checks).
pub open spec fn close_tag(st: ScanState) -> ScanState {
    if st.is_closing {
        ScanState {
            depth: if st.depth == 0 { 0 } else { (st.depth - 1) as nat },
            in_tag: false,
            ..st
        }
    } else if st.is_self_closing {
        ScanState { count: st.count + 1, in_tag: false, ..st }
    } else {
        let d = st.depth + 1;
        ScanState {
            depth: d,
            max_depth: if d > st.max_depth { d } else { st.max_depth },
            count: st.count + 1,
            in_tag: false,
            ..st
        }
    }
}

/// The verdict of the limit checks made right after a tag ends in state `st`.
pub open spec fn tag_limit_error(st: ScanState) -> Option<ErrorModel> {
    let next = close_tag(st);
    if st.is_closing {
        None
    } else if next.count > MAX_SVG_ELEMENTS {
        Some(ErrorModel::MaxElementsExceeded { max: MAX_SVG_ELEMENTS })
    } else if !st.is_self_closing && next.max_depth > MAX_SVG_DEPTH {
        Some(ErrorModel::MaxDepthExceeded { max: MAX_SVG_DEPTH })
    } else {
        None
    }
}

/// Whether a CDATA section (`<![CDATA[`) opens at byte `i`.
pub open spec fn cdata_opens(b: Seq<u8>, i: int) -> bool {
    &&& 0 <= i
    &&& i + 8 < b.len()
    &&& b[i + 1] == 33u8
    &&& b[i + 2] == 91u8
    &&& b[i + 3] == 67u8
    &&& b[i + 4] == 68u8
    &&& b[i + 5] == 65u8
    &&& b[i + 6] == 84u8
    &&& b[i + 7] == 65u8
    &&& b[i + 8] == 91u8
}

/// The outcome of scanning `b` from byte `i` on, in state `st`.
///
/// Tags are read between `<` and `>`: `</...>` closes an element, `<.../>` is
/// an element that closes itself, any other tag opens one. A CDATA section
/// `<![CDATA[...]]>` is skipped up to its `]]>`, any other `<!...` up to a
/// `>` that follows a `-`, `<?...` up to the next `>`. The scan fails as
/// soon as more than `MAX_SVG_ELEMENTS` elements were counted, or an element
/// opens deeper than `MAX_SVG_DEPTH`.
pub open spec fn scan_from(b: Seq<u8>, i: int, st: ScanState) -> Result<(), ErrorModel>
    decreases b.len() - i,
{
    if i < 0 || i >= b.len() {
        Ok(())
    } else {
        let c = b[i];
        match st.mode {
            ScanMode::Declaration => {
                if c == 62u8 && i > 0 && b[i - 1] == 45u8 {
                    scan_from(b, i + 1, ScanState { mode: ScanMode::Markup, ..st })
                } else {
                    scan_from(b, i + 1, st)
                }
            },
            ScanMode::CData => {
                if c == 62u8 && i >= 2 && b[i - 1] == 93u8 && b[i - 2] == 93u8 {
                    scan_from(b, i + 1, ScanState { mode: ScanMode::Markup, ..st })
                } else {
                    scan_from(b, i + 1, st)
                }
            },
            ScanMode::Instruction => {
                if c == 62u8 {
                    scan_from(b, i + 1, ScanState { mode: ScanMode::Markup, ..st })
                } else {
                    scan_from(b, i + 1, st)
                }
            },
            ScanMode::Markup => {
                if c == 60u8 {
                    let opened = ScanState {
                        in_tag: true,
                        is_closing: false,
                        is_self_closing: false,
                        ..st
                    };
                    if i + 1 < b.len() && b[i + 1] == 47u8 {
                        scan_from(b, i + 1, ScanState { is_closing: true, ..opened })
                    } else if i + 3 < b.len() && b[i + 1] == 33u8 && cdata_opens(b, i) {
                        scan_from(
                            b,
                            i + 1,
                            ScanState { in_tag: false, mode: ScanMode::CData, ..opened },
                        )
                    } else if i + 3 < b.len() && b[i + 1] == 33u8 {
                        scan_from(
                            b,
                            i + 1,
                            ScanState { in_tag: false, mode: ScanMode::Declaration, ..opened },
                        )
                    } else if i + 1 < b.len() && b[i + 1] == 63u8 {
                        scan_from(
                            b,
                            i + 1,
                            ScanState { in_tag: false, mode: ScanMode::Instruction, ..opened },
                        )
                    } else {
                        scan_from(b, i + 1, opened)
                    }
                } else if c == 47u8 && st.in_tag {
                    if i + 1 < b.len() && b[i + 1] == 62u8 {
                        scan_from(b, i + 1, ScanState { is_self_closing: true, ..st })
                    } else {
                        scan_from(b, i + 1, st)
                    }
                } else if c == 62u8 && st.in_tag {
                    match tag_limit_error(st) {
                        Some(e) => Err(e),
                        None => scan_from(b, i + 1, close_tag(st)),
                    }
                } else {
                    scan_from(b, i + 1, st)
                }
            },
        }
    }
}

/// The outcome of checking the structure of the document with bytes `b`.
pub open spec fn structure_check(b: Seq<u8>) -> Result<(), ErrorModel> {
    scan_from(b, 0, initial_scan_state())
}

/// What a tag does to the element structure.
pub enum TagKind {
    /// `<name ...>`: an element opens one level deeper.
    Open,
    /// `</name>`: the innermost open element closes.
    Close,
    /// `<name .../>`: an element that opens and closes at once.
    SelfClosing,
}

/// The kind of the tag that ends in state `st`.
pub open spec fn tag_kind(st: ScanState) -> TagKind {
    if st.is_closing {
        TagKind::Close
    } else if st.is_self_closing {
        TagKind::SelfClosing
    } else {
        TagKind::Open
    }
}

/// The tags of `b` from byte `i` on, in order, read in state `st`: tags as
/// `scan_from` reads them, with comments, CDATA sections, declarations and
/// processing instructions skipped.
pub open spec fn tags_from(b: Seq<u8>, i: int, st: ScanState) -> Seq<TagKind>
    decreases b.len() - i,
{
    if i < 0 || i >= b.len() {
        Seq::empty()
    } else {
        let c = b[i];
        match st.mode {
            ScanMode::Declaration => {
                if c == 62u8 && i > 0 && b[i - 1] == 45u8 {
                    tags_from(b, i + 1, ScanState { mode: ScanMode::Markup, ..st })
                } else {
                    tags_from(b, i + 1, st)
                }
            },
            ScanMode::CData => {
                if c == 62u8 && i >= 2 && b[i - 1] == 93u8 && b[i - 2] == 93u8 {
                    tags_from(b, i + 1, ScanState { mode: ScanMode::Markup, ..st })
                } else {
                    tags_from(b, i + 1, st)
                }
            },
            ScanMode::Instruction => {
                if c == 62u8 {
                    tags_from(b, i + 1, ScanState { mode: ScanMode::Markup, ..st })
                } else {
                    tags_from(b, i + 1, st)
                }
            },
            ScanMode::Markup => {
                if c == 60u8 {
                    let opened = ScanState {
                        in_tag: true,
                        is_closing: false,
                        is_self_closing: false,
                        ..st
                    };
                    if i + 1 < b.len() && b[i + 1] == 47u8 {
                        tags_from(b, i + 1, ScanState { is_closing: true, ..opened })
                    } else if i + 3 < b.len() && b[i + 1] == 33u8 && cdata_opens(b, i) {
                        tags_from(b, i + 1, ScanState { in_tag: false, mode: ScanMode::CData, ..opened })
                    } else if i + 3 < b.len() && b[i + 1] == 33u8 {
                        tags_from(
                            b,
                            i + 1,
                            ScanState { in_tag: false, mode: ScanMode::Declaration, ..opened },
                        )
                    } else if i + 1 < b.len() && b[i + 1] == 63u8 {
                        tags_from(
                            b,
                            i + 1,
                            ScanState { in_tag: false, mode: ScanMode::Instruction, ..opened },
                        )
                    } else {
                        tags_from(b, i + 1, opened)
                    }
                } else if c == 47u8 && st.in_tag {
                    if i + 1 < b.len() && b[i + 1] == 62u8 {
                        tags_from(b, i + 1, ScanState { is_self_closing: true, ..st })
                    } else {
                        tags_from(b, i + 1, st)
                    }
                } else if c == 62u8 && st.in_tag {
                    seq![tag_kind(st)] + tags_from(b, i + 1, close_tag(st))
                } else {
                    tags_from(b, i + 1, st)
                }
            },
        }
    }
}

/// The tags of the document with bytes `b`, in order.
pub open spec fn document_tags(b: Seq<u8>) -> Seq<TagKind> {
    tags_from(b, 0, initial_scan_state())
}

/// The verdict on the tags `t`, read in order at element depth `depth` with
/// `count` elements counted before them: every opening or self-closing tag
/// counts one element, and fails the check when it makes more than
/// `MAX_SVG_ELEMENTS`; an opening tag goes one level deeper, and fails when
/// that is deeper than `MAX_SVG_DEPTH`; a closing tag goes one level up (not
/// below the top level).
pub open spec fn check_tags(t: Seq<TagKind>, depth: nat, count: nat) -> Result<(), ErrorModel>
    decreases t.len(),
{
    if t.len() == 0 {
        Ok(())
    } else {
        let rest = t.drop_first();
        match t[0] {
            TagKind::Close => check_tags(rest, if depth == 0 { 0 } else { (depth - 1) as nat }, count),
            TagKind::SelfClosing => {
                if count + 1 > MAX_SVG_ELEMENTS {
                    Err(ErrorModel::MaxElementsExceeded { max: MAX_SVG_ELEMENTS })
                } else {
                    check_tags(rest, depth, count + 1)
                }
            },
            TagKind::Open => {
                if count + 1 > MAX_SVG_ELEMENTS {
                    Err(ErrorModel::MaxElementsExceeded { max: MAX_SVG_ELEMENTS })
                } else if depth + 1 > MAX_SVG_DEPTH {
                    Err(ErrorModel::MaxDepthExceeded { max: MAX_SVG_DEPTH })
                } else {
                    check_tags(rest, depth + 1, count + 1)
                }
            },
        }
    }
}

/// Checks the element structure of an SVG document: the nesting depth of its
/// elements and their number stay within `MAX_SVG_DEPTH` and
/// `MAX_SVG_ELEMENTS`, tag by tag.
pub fn validate_svg_structure(content: &str) -> (r: Result<(), SvgoError>)
    ensures
        unit_result(r) == structure_check(content.spec_bytes()),
        unit_result(r) == check_tags(document_tags(content.spec_bytes()), 0, 0),
{
    proof {
        lemma_structure_by_tags(content.spec_bytes());
    }
    let bytes = content.as_bytes();
    let len = bytes.len();
    let ghost b = bytes@;
    let mut depth: usize = 0;
    let mut max_depth: usize = 0;
    let mut element_count: usize = 0;
    let mut in_tag = false;
    let mut is_closing = false;
    let mut is_self_closing = false;
    let mut i: usize = 0;
    while i < len
        invariant
            b == bytes@,
            b == content.spec_bytes(),
            len == b.len(),
            i <= len,
            max_depth <= MAX_SVG_DEPTH,
            depth <= max_depth,
            element_count <= MAX_SVG_ELEMENTS,
            structure_check(b) == check_tags(document_tags(b), 0, 0),
            structure_check(b) == scan_from(
                b,
                i as int,
                ScanState {
                    depth: depth as nat,
                    max_depth: max_depth as nat,
                    count: element_count as nat,
                    in_tag,
                    is_closing,
                    is_self_closing,
                    mode: ScanMode::Markup,
                },
            ),
        decreases len - i,
    {
        let ghost st = ScanState {
            depth: depth as nat,
            max_depth: max_depth as nat,
            count: element_count as nat,
            in_tag,
            is_closing,
            is_self_closing,
            mode: ScanMode::Markup,
        };
        let ghost i0 = i;
        let c = bytes[i];
        if c == 60u8 {
            in_tag = true;
            is_closing = false;
            is_self_closing = false;
            if i + 1 < len && bytes[i + 1] == 47u8 {
                is_closing = true;
            } else if len - i > 8 && bytes[i + 1] == 33u8 && bytes[i + 2] == 91u8 && bytes[i + 3] == 67u8
                && bytes[i + 4] == 68u8 && bytes[i + 5] == 65u8 && bytes[i + 6] == 84u8 && bytes[i + 7]
                == 65u8 && bytes[i + 8] == 91u8 {
                let ghost skip = ScanState {
                    in_tag: false,
                    is_closing: false,
                    is_self_closing: false,
                    mode: ScanMode::CData,
                    ..st
                };
                assert(cdata_opens(b, i as int));
                assert(scan_from(b, i as int, st) == scan_from(b, i + 1, skip));
                i = i + 1;
                while i < len && !(bytes[i] == 62u8 && i >= 2 && bytes[i - 1] == 93u8 && bytes[i - 2] == 93u8)
                    invariant
                        b == bytes@,
                        len == b.len(),
                        i0 < i <= len,
                        skip.mode is CData,
                        structure_check(b) == scan_from(b, i as int, skip),
                    decreases len - i,
                {
                    assert(scan_from(b, i as int, skip) == scan_from(b, i + 1, skip));
                    i = i + 1;
                }
                in_tag = false;
                if i < len {
                    assert(scan_from(b, i as int, skip) == scan_from(
                        b,
                        i + 1,
                        ScanState { mode: ScanMode::Markup, ..skip },
                    ));
                }
            } else if len - i > 3 && bytes[i + 1] == 33u8 {
                let ghost skip = ScanState {
                    in_tag: false,
                    is_closing: false,
                    is_self_closing: false,
                    mode: ScanMode::Declaration,
                    ..st
                };
                assert(!cdata_opens(b, i as int));
                assert(scan_from(b, i as int, st) == scan_from(b, i + 1, skip));
                i = i + 1;
                while i < len && !(bytes[i] == 62u8 && i > 0 && bytes[i - 1] == 45u8)
                    invariant
                        b == bytes@,
                        len == b.len(),
                        i0 < i <= len,
                        skip.mode is Declaration,
                        structure_check(b) == scan_from(b, i as int, skip),
                    decreases len - i,
                {
                    assert(scan_from(b, i as int, skip) == scan_from(b, i + 1, skip));
                    i = i + 1;
                }
                in_tag = false;
                if i < len {
                    assert(scan_from(b, i as int, skip) == scan_from(
                        b,
                        i + 1,
                        ScanState { mode: ScanMode::Markup, ..skip },
                    ));
                }
            } else if i + 1 < len && bytes[i + 1] == 63u8 {
                let ghost skip = ScanState {
                    in_tag: false,
                    is_closing: false,
                    is_self_closing: false,
                    mode: ScanMode::Instruction,
                    ..st
                };
                assert(scan_from(b, i as int, st) == scan_from(b, i + 1, skip));
                i = i + 1;
                while i < len && bytes[i] != 62u8
                    invariant
                        b == bytes@,
                        len == b.len(),
                        i0 < i <= len,
                        skip.mode is Instruction,
                        structure_check(b) == scan_from(b, i as int, skip),
                    decreases len - i,
                {
                    assert(scan_from(b, i as int, skip) == scan_from(b, i + 1, skip));
                    i = i + 1;
                }
                in_tag = false;
                if i < len {
                    assert(scan_from(b, i as int, skip) == scan_from(
                        b,
                        i + 1,
                        ScanState { mode: ScanMode::Markup, ..skip },
                    ));
                }
            }
        } else if c == 47u8 && in_tag {
            if i + 1 < len && bytes[i + 1] == 62u8 {
                is_self_closing = true;
            }
        } else if c == 62u8 && in_tag {
            assert(scan_from(b, i as int, st) == match tag_limit_error(st) {
                Some(e) => Err(e),
                None => scan_from(b, i + 1, close_tag(st)),
            });
            in_tag = false;
            if is_closing {
                depth = if depth == 0 { 0 } else { depth - 1 };
            } else if is_self_closing {
                element_count = element_count + 1;
                if element_count > MAX_SVG_ELEMENTS {
                    return Err(SvgoError::MaxElementsExceeded { max: MAX_SVG_ELEMENTS });
                }
            } else {
                element_count = element_count + 1;
                if element_count > MAX_SVG_ELEMENTS {
                    return Err(SvgoError::MaxElementsExceeded { max: MAX_SVG_ELEMENTS });
                }
                depth = depth + 1;
                if depth > max_depth {
                    max_depth = depth;
                }
                if max_depth > MAX_SVG_DEPTH {
                    return Err(SvgoError::MaxDepthExceeded { max: MAX_SVG_DEPTH });
                }
            }
        }
        if i < len {
            i = i + 1;
        }
    }
    Ok(())
}

} // verus!

verus! {

/// The only ways the structure check fails: too many elements, or too deep.
pub open spec fn structure_error(e: ErrorModel) -> bool {
    ||| e == ErrorModel::MaxElementsExceeded { max: MAX_SVG_ELEMENTS }
    ||| e == ErrorModel::MaxDepthExceeded { max: MAX_SVG_DEPTH }
}

proof fn lemma_scan_errors(b: Seq<u8>, i: int, st: ScanState)
    ensures
        scan_from(b, i, st) matches Err(e) ==> structure_error(e),
    decreases b.len() - i,
{
    if 0 <= i < b.len() {
        let c = b[i];
        let opened = ScanState { in_tag: true, is_closing: false, is_self_closing: false, ..st };
        lemma_scan_errors(b, i + 1, st);
        lemma_scan_errors(b, i + 1, ScanState { mode: ScanMode::Markup, ..st });
        lemma_scan_errors(b, i + 1, ScanState { is_closing: true, ..opened });
        lemma_scan_errors(b, i + 1, ScanState { in_tag: false, mode: ScanMode::Declaration, ..opened });
        lemma_scan_errors(b, i + 1, ScanState { in_tag: false, mode: ScanMode::CData, ..opened });
        lemma_scan_errors(b, i + 1, ScanState { in_tag: false, mode: ScanMode::Instruction, ..opened });
        lemma_scan_errors(b, i + 1, opened);
        lemma_scan_errors(b, i + 1, ScanState { is_self_closing: true, ..st });
        lemma_scan_errors(b, i + 1, close_tag(st));
    }
}

proof fn lemma_scan_by_tags(b: Seq<u8>, i: int, st: ScanState)
    requires
        st.max_depth <= MAX_SVG_DEPTH,
        st.depth <= st.max_depth,
    ensures
        scan_from(b, i, st) == check_tags(tags_from(b, i, st), st.depth, st.count),
    decreases b.len() - i,
{
    if 0 <= i < b.len() {
        let c = b[i];
        let opened = ScanState { in_tag: true, is_closing: false, is_self_closing: false, ..st };
        match st.mode {
            ScanMode::Declaration => {
                lemma_scan_by_tags(b, i + 1, st);
                lemma_scan_by_tags(b, i + 1, ScanState { mode: ScanMode::Markup, ..st });
            },
            ScanMode::CData => {
                lemma_scan_by_tags(b, i + 1, st);
                lemma_scan_by_tags(b, i + 1, ScanState { mode: ScanMode::Markup, ..st });
            },
            ScanMode::Instruction => {
                lemma_scan_by_tags(b, i + 1, st);
                lemma_scan_by_tags(b, i + 1, ScanState { mode: ScanMode::Markup, ..st });
            },
            ScanMode::Markup => {
                if c == 60u8 {
                    lemma_scan_by_tags(b, i + 1, ScanState { is_closing: true, ..opened });
                    lemma_scan_by_tags(b, i + 1, ScanState { in_tag: false, mode: ScanMode::CData, ..opened });
                    lemma_scan_by_tags(
                        b,
                        i + 1,
                        ScanState { in_tag: false, mode: ScanMode::Declaration, ..opened },
                    );
                    lemma_scan_by_tags(
                        b,
                        i + 1,
                        ScanState { in_tag: false, mode: ScanMode::Instruction, ..opened },
                    );
                    lemma_scan_by_tags(b, i + 1, opened);
                } else if c == 47u8 && st.in_tag {
                    lemma_scan_by_tags(b, i + 1, ScanState { is_self_closing: true, ..st });
                    lemma_scan_by_tags(b, i + 1, st);
                } else if c == 62u8 && st.in_tag {
                    let rest = tags_from(b, i + 1, close_tag(st));
                    let t = seq![tag_kind(st)] + rest;
                    assert(t.drop_first() =~= rest);
                    assert(t[0] == tag_kind(st));
                    if tag_limit_error(st) is None {
                        lemma_scan_by_tags(b, i + 1, close_tag(st));
                    }
                } else {
                    lemma_scan_by_tags(b, i + 1, st);
                }
            },
        }
    }
}

/// The structure check is a check of the document's tags, one by one: the
/// element count and the nesting depth as `check_tags` follows them.
pub proof fn lemma_structure_by_tags(b: Seq<u8>)
    ensures
        structure_check(b) == check_tags(document_tags(b), 0, 0),
{
    lemma_scan_by_tags(b, 0, initial_scan_state());
}

/// A document is only refused for having more than `MAX_SVG_ELEMENTS`
/// elements or nesting deeper than `MAX_SVG_DEPTH`.
pub proof fn lemma_structure_errors(b: Seq<u8>)
    ensures
        structure_check(b) matches Err(e) ==> structure_error(e),
{
    lemma_scan_errors(b, 0, initial_scan_state());
}

proof fn lemma_scan_text(b: Seq<u8>, i: int, st: ScanState)
    requires
        forall|j: int| 0 <= j < b.len() ==> b[j] != 60u8,
        st.mode == ScanMode::Markup,
        !st.in_tag,
    ensures
        scan_from(b, i, st) == Ok::<(), ErrorModel>(()),
    decreases b.len() - i,
{
    if 0 <= i < b.len() {
        lemma_scan_text(b, i + 1, st);
    }
}

/// Text without any `<` holds no tag, and is always accepted.
pub proof fn lemma_text_without_tags_passes(b: Seq<u8>)
    requires
        forall|j: int| 0 <= j < b.len() ==> b[j] != 60u8,
    ensures
        structure_check(b) == Ok::<(), ErrorModel>(()),
{
    lemma_scan_text(b, 0, initial_scan_state());
}

} // verus!

verus! {

/// The bytes of `n` nested opening tags: `<g>` written `n` times.
pub open spec fn nested_open_tags(n: nat) -> Seq<u8> {
    Seq::new(
        3 * n,
        |i: int|
            if i % 3 == 0 {
                60u8
            } else if i % 3 == 1 {
                103u8
            } else {
                62u8
            },
    )
}

/// The scan state after `k` opening tags.
pub open spec fn opened_state(k: nat) -> ScanState {
    ScanState {
        depth: k,
        max_depth: k,
        count: k,
        in_tag: false,
        is_closing: false,
        is_self_closing: false,
        mode: ScanMode::Markup,
    }
}

proof fn lemma_scan_nested(n: nat, k: nat)
    requires
        k <= n,
        k <= MAX_SVG_DEPTH,
    ensures
        scan_from(nested_open_tags(n), (3 * k) as int, opened_state(k)) == if n <= MAX_SVG_DEPTH {
            Ok::<(), ErrorModel>(())
        } else {
            Err(ErrorModel::MaxDepthExceeded { max: MAX_SVG_DEPTH })
        },
    decreases n - k,
{
    let b = nested_open_tags(n);
    if k < n {
        let i: int = (3 * k) as int;
        assert(b[i] == 60u8);
        assert(b[i + 1] == 103u8);
        assert(b[i + 2] == 62u8);
        let st = opened_state(k);
        let opened = ScanState { in_tag: true, is_closing: false, is_self_closing: false, ..st };
        assert(scan_from(b, i, st) == scan_from(b, i + 1, opened));
        assert(scan_from(b, i + 1, opened) == scan_from(b, i + 2, opened));
        assert(close_tag(opened) == opened_state(k + 1));
        if k < MAX_SVG_DEPTH {
            lemma_scan_nested(n, k + 1);
            assert((3 * (k + 1)) as int == i + 3);
        }
    }
}

/// The depth limit is exact: `n` nested opening tags are accepted exactly
/// when `n` is at most `MAX_SVG_DEPTH`, and refused for depth otherwise.
pub proof fn lemma_depth_limit(n: nat)
    ensures
        structure_check(nested_open_tags(n)) == if n <= MAX_SVG_DEPTH {
            Ok::<(), ErrorModel>(())
        } else {
            Err(ErrorModel::MaxDepthExceeded { max: MAX_SVG_DEPTH })
        },
{
    lemma_scan_nested(n, 0);
    assert(opened_state(0) == initial_scan_state());
}

} // verus!

verus! {

/// A piece of a simple document: a tag with its name, or text.
pub enum Piece {
    /// `<name>`
    Open(Seq<u8>),
    /// `</name>`
    Close(Seq<u8>),
    /// `<name/>`
    SelfClosing(Seq<u8>),
    /// Text without `<`.
    Text(Seq<u8>),
}

/// Whether `c` is an ASCII letter or digit.
pub open spec fn is_name_byte(c: u8) -> bool {
    (48 <= c <= 57) || (65 <= c <= 90) || (97 <= c <= 122)
}

/// Whether `n` is a tag name: one or more ASCII letters or digits.
pub open spec fn is_tag_name(n: Seq<u8>) -> bool {
    n.len() > 0 && forall|k: int| 0 <= k < n.len() ==> is_name_byte(#[trigger] n[k])
}

/// Whether a piece is well formed: a tag with a tag name, or text without `<`.
pub open spec fn valid_piece(p: Piece) -> bool {
    match p {
        Piece::Open(n) => is_tag_name(n),
        Piece::Close(n) => is_tag_name(n),
        Piece::SelfClosing(n) => is_tag_name(n),
        Piece::Text(t) => forall|k: int| 0 <= k < t.len() ==> #[trigger] t[k] != 60u8,
    }
}

/// The bytes of a piece.
pub open spec fn piece_bytes(p: Piece) -> Seq<u8> {
    match p {
        Piece::Open(n) => seq![60u8] + n + seq![62u8],
        Piece::Close(n) => seq![60u8, 47u8] + n + seq![62u8],
        Piece::SelfClosing(n) => seq![60u8] + n + seq![47u8, 62u8],
        Piece::Text(t) => t,
    }
}

/// The tag that a piece is, if it is one.
pub open spec fn piece_kinds(p: Piece) -> Seq<TagKind> {
    match p {
        Piece::Open(_) => seq![TagKind::Open],
        Piece::Close(_) => seq![TagKind::Close],
        Piece::SelfClosing(_) => seq![TagKind::SelfClosing],
        Piece::Text(_) => Seq::empty(),
    }
}

/// The bytes of a document made of the pieces `ps`, in order.
pub open spec fn document_bytes(ps: Seq<Piece>) -> Seq<u8>
    decreases ps.len(),
{
    if ps.len() == 0 {
        Seq::empty()
    } else {
        piece_bytes(ps[0]) + document_bytes(ps.drop_first())
    }
}

/// The tags of the pieces `ps`, in order.
pub open spec fn piece_tags(ps: Seq<Piece>) -> Seq<TagKind>
    decreases ps.len(),
{
    if ps.len() == 0 {
        Seq::empty()
    } else {
        piece_kinds(ps[0]) + piece_tags(ps.drop_first())
    }
}

proof fn lemma_skip_bytes(b: Seq<u8>, j: int, k: int, st: ScanState)
    requires
        0 <= j <= k <= b.len(),
        st.mode == ScanMode::Markup,
        forall|x: int|
            j <= x < k ==> #[trigger] b[x] != 60u8 && (st.in_tag ==> b[x] != 47u8 && b[x] != 62u8),
    ensures
        tags_from(b, j, st) == tags_from(b, k, st),
    decreases k - j,
{
    if j < k {
        lemma_skip_bytes(b, j + 1, k, st);
    }
}

proof fn lemma_piece(b: Seq<u8>, i: int, p: Piece, st: ScanState) -> (next: ScanState)
    requires
        0 <= i,
        i + piece_bytes(p).len() <= b.len(),
        forall|k: int| 0 <= k < piece_bytes(p).len() ==> b[i + k] == #[trigger] piece_bytes(p)[k],
        valid_piece(p),
        st.mode == ScanMode::Markup,
        !st.in_tag,
    ensures
        next.mode == ScanMode::Markup,
        !next.in_tag,
        tags_from(b, i, st) == piece_kinds(p) + tags_from(b, i + piece_bytes(p).len(), next),
{
    let pb = piece_bytes(p);
    let m = pb.len() as int;
    match p {
        Piece::Text(t) => {
            assert forall|x: int| i <= x < i + m implies #[trigger] b[x] != 60u8 by {
                assert(b[i + (x - i)] == pb[x - i]);
            }
            lemma_skip_bytes(b, i, i + m, st);
            assert(piece_kinds(p) + tags_from(b, i + m, st) =~= tags_from(b, i + m, st));
            st
        },
        Piece::Open(n) => {
            let opened = ScanState { in_tag: true, is_closing: false, is_self_closing: false, ..st };
            assert(b[i] == pb[0]);
            assert(b[i + 1] == pb[1]);
            assert(pb[1] == n[0]);
            assert(is_name_byte(n[0]));
            assert(tags_from(b, i, st) == tags_from(b, i + 1, opened));
            let e = i + 1 + n.len();
            assert forall|x: int| i + 1 <= x < e implies #[trigger] b[x] != 60u8 && (opened.in_tag ==> b[x]
                != 47u8 && b[x] != 62u8) by {
                assert(b[i + (x - i)] == pb[x - i]);
                assert(pb[x - i] == n[x - i - 1]);
                assert(is_name_byte(n[x - i - 1]));
            }
            lemma_skip_bytes(b, i + 1, e, opened);
            assert(b[i + (m - 1)] == pb[m - 1]);
            assert(e == i + m - 1);
            assert(tags_from(b, e, opened) == seq![tag_kind(opened)] + tags_from(b, e + 1, close_tag(opened)));
            close_tag(opened)
        },
        Piece::Close(n) => {
            let opened = ScanState { in_tag: true, is_closing: false, is_self_closing: false, ..st };
            let closing = ScanState { is_closing: true, ..opened };
            assert(b[i] == pb[0]);
            assert(b[i + 1] == pb[1]);
            assert(b[i + 2] == pb[2]);
            assert(pb[2] == n[0]);
            assert(is_name_byte(n[0]));
            assert(tags_from(b, i, st) == tags_from(b, i + 1, closing));
            assert(tags_from(b, i + 1, closing) == tags_from(b, i + 2, closing));
            let e = i + 2 + n.len();
            assert forall|x: int| i + 2 <= x < e implies #[trigger] b[x] != 60u8 && (closing.in_tag ==> b[x]
                != 47u8 && b[x] != 62u8) by {
                assert(b[i + (x - i)] == pb[x - i]);
                assert(pb[x - i] == n[x - i - 2]);
                assert(is_name_byte(n[x - i - 2]));
            }
            lemma_skip_bytes(b, i + 2, e, closing);
            assert(b[i + (m - 1)] == pb[m - 1]);
            assert(e == i + m - 1);
            assert(tags_from(b, e, closing) == seq![tag_kind(closing)] + tags_from(b, e + 1, close_tag(closing)));
            close_tag(closing)
        },
        Piece::SelfClosing(n) => {
            let opened = ScanState { in_tag: true, is_closing: false, is_self_closing: false, ..st };
            let closed = ScanState { is_self_closing: true, ..opened };
            assert(b[i] == pb[0]);
            assert(b[i + 1] == pb[1]);
            assert(pb[1] == n[0]);
            assert(is_name_byte(n[0]));
            assert(tags_from(b, i, st) == tags_from(b, i + 1, opened));
            let e = i + 1 + n.len();
            assert forall|x: int| i + 1 <= x < e implies #[trigger] b[x] != 60u8 && (opened.in_tag ==> b[x]
                != 47u8 && b[x] != 62u8) by {
                assert(b[i + (x - i)] == pb[x - i]);
                assert(pb[x - i] == n[x - i - 1]);
                assert(is_name_byte(n[x - i - 1]));
            }
            lemma_skip_bytes(b, i + 1, e, opened);
            assert(b[i + (m - 2)] == pb[m - 2]);
            assert(b[i + (m - 1)] == pb[m - 1]);
            assert(e == i + m - 2);
            assert(tags_from(b, e, opened) == tags_from(b, e + 1, closed));
            assert(tags_from(b, e + 1, closed) == seq![tag_kind(closed)] + tags_from(b, e + 2, close_tag(closed)));
            close_tag(closed)
        },
    }
}

proof fn lemma_pieces_from(b: Seq<u8>, i: int, ps: Seq<Piece>, st: ScanState)
    requires
        0 <= i <= b.len(),
        b.subrange(i, b.len() as int) == document_bytes(ps),
        forall|k: int| 0 <= k < ps.len() ==> valid_piece(#[trigger] ps[k]),
        st.mode == ScanMode::Markup,
        !st.in_tag,
    ensures
        tags_from(b, i, st) == piece_tags(ps),
    decreases ps.len(),
{
    if ps.len() == 0 {
        assert(b.subrange(i, b.len() as int).len() == 0);
    } else {
        let p = ps[0];
        let pb = piece_bytes(p);
        let rest = ps.drop_first();
        let m = pb.len() as int;
        let whole = b.subrange(i, b.len() as int);
        assert(whole == pb + document_bytes(rest));
        assert forall|k: int| 0 <= k < m implies b[i + k] == #[trigger] pb[k] by {
            assert(whole[k] == b[i + k]);
            assert((pb + document_bytes(rest))[k] == pb[k]);
        }
        assert(b.subrange(i + m, b.len() as int) =~= document_bytes(rest)) by {
            assert forall|k: int| 0 <= k < document_bytes(rest).len() implies b.subrange(
                i + m,
                b.len() as int,
            )[k] == #[trigger] document_bytes(rest)[k] by {
                assert(whole[m + k] == b[i + m + k]);
                assert((pb + document_bytes(rest))[m + k] == document_bytes(rest)[k]);
            }
        }
        assert(valid_piece(ps[0]));
        assert forall|k: int| 0 <= k < rest.len() implies valid_piece(#[trigger] rest[k]) by {
            assert(rest[k] == ps[k + 1]);
        }
        let next = lemma_piece(b, i, p, st);
        lemma_pieces_from(b, i + m, rest, next);
    }
}

/// A document made of well-formed tags and text reads as those tags, so its
/// check is the tag-by-tag check of the depth (one deeper at `<name>`, one
/// up at `</name>`, not below the top) and the element count (one more at
/// `<name>` and `<name/>`).
pub proof fn lemma_simple_documents(ps: Seq<Piece>)
    requires
        forall|k: int| 0 <= k < ps.len() ==> valid_piece(#[trigger] ps[k]),
    ensures
        document_tags(document_bytes(ps)) == piece_tags(ps),
        structure_check(document_bytes(ps)) == check_tags(piece_tags(ps), 0, 0),
{
    let b = document_bytes(ps);
    assert(b.subrange(0, b.len() as int) =~= b);
    lemma_pieces_from(b, 0, ps, initial_scan_state());
    lemma_structure_by_tags(b);
}

} // verus!

verus! {

/// `n` self-closing tags in a row.
pub open spec fn self_closing_run(n: nat) -> Seq<TagKind> {
    Seq::new(n, |i: int| TagKind::SelfClosing)
}

proof fn lemma_self_closing_run_from(n: nat, depth: nat, count: nat)
    requires
        count <= 100_000,
    ensures
        check_tags(self_closing_run(n), depth, count) == if count + n <= 100_000 {
            Ok::<(), ErrorModel>(())
        } else {
            Err(ErrorModel::MaxElementsExceeded { max: 100_000 })
        },
    decreases n,
{
    if n > 0 {
        let t = self_closing_run(n);
        assert(t.drop_first() =~= self_closing_run((n - 1) as nat));
        assert(t[0] == TagKind::SelfClosing);
        assert(MAX_SVG_ELEMENTS == 100_000);
        if count + 1 <= 100_000 {
            lemma_self_closing_run_from((n - 1) as nat, depth, count + 1);
        }
    }
}

/// The element limit is exact: a run of self-closing tags passes exactly when
/// it holds at most 100 000 of them, and is refused for its element count
/// otherwise; depth plays no part.
pub proof fn lemma_element_limit(n: nat, depth: nat)
    ensures
        check_tags(self_closing_run(n), depth, 0) == if n <= 100_000 {
            Ok::<(), ErrorModel>(())
        } else {
            Err(ErrorModel::MaxElementsExceeded { max: 100_000 })
        },
{
    lemma_self_closing_run_from(n, depth, 0);
}

} // verus!
