//! The typed request decoder.
//!
//! A decoded multipart body is turned into a typed audio request, field by
//! field and in body order.  The recognized field names form a closed set;
//! any other name rejects the whole request.  Every non-file field must be
//! a text part and is parsed strictly: a value that does not parse is a
//! client error, never a silent default.  The `file` field is the one
//! field with a side effect: the upload is normalized and archived before
//! decoding continues.
use crate::archive::{FileArchive, FileView, UploadedFile};
use crate::bytes::{lower_seq, trim_spec};
use crate::convert::wav_name_bytes;
use crate::json::lit_bytes;
use crate::multipart::{has_prefix, part_views, PartView, RawPart};
use crate::numtext::{
    is_false_literal, is_float_literal, is_int_literal_shape, is_true_literal,
    is_u64_literal_shape, int_literal_val, u64_literal_val,
};
use crate::response::{ErrorKind, ErrorResponse};
use vstd::prelude::*;

verus! {

/// The closed set of recognized field names.
#[derive(Clone, Copy, Debug, PartialEq, Eq, Structural)]
pub enum FieldKind {
    File,
    Model,
    Language,
    Prompt,
    ResponseFormat,
    Temperature,
    DetectLanguage,
    OffsetTime,
    Duration,
    MaxContext,
    MaxLen,
    SplitOnWord,
    UseNewContext,
}

/// The total mapping from a field name to its kind; `None` is an unknown
/// field and rejects the request.
pub open spec fn field_kind_of(n: Seq<u8>) -> Option<FieldKind> {
    if n == lit_bytes(("file")@) {
        Some(FieldKind::File)
    } else if n == lit_bytes(("model")@) {
        Some(FieldKind::Model)
    } else if n == lit_bytes(("language")@) {
        Some(FieldKind::Language)
    } else if n == lit_bytes(("prompt")@) {
        Some(FieldKind::Prompt)
    } else if n == lit_bytes(("response_format")@) {
        Some(FieldKind::ResponseFormat)
    } else if n == lit_bytes(("temperature")@) {
        Some(FieldKind::Temperature)
    } else if n == lit_bytes(("detect_language")@) {
        Some(FieldKind::DetectLanguage)
    } else if n == lit_bytes(("offset_time")@) {
        Some(FieldKind::OffsetTime)
    } else if n == lit_bytes(("duration")@) {
        Some(FieldKind::Duration)
    } else if n == lit_bytes(("max_context")@) {
        Some(FieldKind::MaxContext)
    } else if n == lit_bytes(("max_len")@) {
        Some(FieldKind::MaxLen)
    } else if n == lit_bytes(("split_on_word")@) {
        Some(FieldKind::SplitOnWord)
    } else if n == lit_bytes(("use_new_context")@) {
        Some(FieldKind::UseNewContext)
    } else {
        None
    }
}

/// Maps a field name to its kind.
pub fn field_kind(n: &[u8]) -> (r: Option<FieldKind>)
    ensures
        r == field_kind_of(n@),
{
    if crate::bytes::bytes_eq(n, "file".as_bytes()) {
        Some(FieldKind::File)
    } else if crate::bytes::bytes_eq(n, "model".as_bytes()) {
        Some(FieldKind::Model)
    } else if crate::bytes::bytes_eq(n, "language".as_bytes()) {
        Some(FieldKind::Language)
    } else if crate::bytes::bytes_eq(n, "prompt".as_bytes()) {
        Some(FieldKind::Prompt)
    } else if crate::bytes::bytes_eq(n, "response_format".as_bytes()) {
        Some(FieldKind::ResponseFormat)
    } else if crate::bytes::bytes_eq(n, "temperature".as_bytes()) {
        Some(FieldKind::Temperature)
    } else if crate::bytes::bytes_eq(n, "detect_language".as_bytes()) {
        Some(FieldKind::DetectLanguage)
    } else if crate::bytes::bytes_eq(n, "offset_time".as_bytes()) {
        Some(FieldKind::OffsetTime)
    } else if crate::bytes::bytes_eq(n, "duration".as_bytes()) {
        Some(FieldKind::Duration)
    } else if crate::bytes::bytes_eq(n, "max_context".as_bytes()) {
        Some(FieldKind::MaxContext)
    } else if crate::bytes::bytes_eq(n, "max_len".as_bytes()) {
        Some(FieldKind::MaxLen)
    } else if crate::bytes::bytes_eq(n, "split_on_word".as_bytes()) {
        Some(FieldKind::SplitOnWord)
    } else if crate::bytes::bytes_eq(n, "use_new_context".as_bytes()) {
        Some(FieldKind::UseNewContext)
    } else {
        None
    }
}

/// A typed audio request, shared by the transcription and translation
/// tasks.  `temperature` keeps the client's text after its shape has been
/// checked against the floating-point grammar; the engine side parses the
/// value.
pub struct AudioRequest {
    pub file: Option<UploadedFile>,
    /// The raw uploaded audio bytes of the archived file, for the caller
    /// that persists or feeds them.
    pub payload: Vec<u8>,
    pub model: Option<String>,
    pub language: Option<String>,
    pub prompt: Option<String>,
    pub response_format: Option<String>,
    pub temperature: Option<String>,
    pub detect_language: Option<bool>,
    pub offset_time: Option<u64>,
    pub duration: Option<u64>,
    pub max_context: Option<i32>,
    pub max_len: Option<u64>,
    pub split_on_word: Option<bool>,
    pub use_new_context: bool,
}

/// The mathematical image of the non-file fields.
pub ghost struct ScalarsView {
    pub model: Option<Seq<char>>,
    pub language: Option<Seq<char>>,
    pub prompt: Option<Seq<char>>,
    pub response_format: Option<Seq<char>>,
    pub temperature: Option<Seq<char>>,
    pub detect_language: Option<bool>,
    pub offset_time: Option<u64>,
    pub duration: Option<u64>,
    pub max_context: Option<i32>,
    pub max_len: Option<u64>,
    pub split_on_word: Option<bool>,
    pub use_new_context: bool,
}

/// The mathematical image of a request.
pub ghost struct RequestView {
    pub file: Option<FileView>,
    pub payload: Seq<u8>,
    pub scalars: ScalarsView,
}

/// The view of an optional string.
pub open spec fn opt_str_view(s: Option<String>) -> Option<Seq<char>> {
    match s {
        Some(v) => Some(v@),
        None => None,
    }
}

impl View for AudioRequest {
    type V = RequestView;

    open spec fn view(&self) -> RequestView {
        RequestView {
            file: match self.file {
                Some(ref f) => Some(f@),
                None => None,
            },
            payload: self.payload@,
            scalars: ScalarsView {
                model: opt_str_view(self.model),
                language: opt_str_view(self.language),
                prompt: opt_str_view(self.prompt),
                response_format: opt_str_view(self.response_format),
                temperature: opt_str_view(self.temperature),
                detect_language: self.detect_language,
                offset_time: self.offset_time,
                duration: self.duration,
                max_context: self.max_context,
                max_len: self.max_len,
                split_on_word: self.split_on_word,
                use_new_context: self.use_new_context,
            },
        }
    }
}

/// A request with nothing decoded yet.
pub open spec fn empty_scalars() -> ScalarsView {
    ScalarsView {
        model: None,
        language: None,
        prompt: None,
        response_format: None,
        temperature: None,
        detect_language: None,
        offset_time: None,
        duration: None,
        max_context: None,
        max_len: None,
        split_on_word: None,
        use_new_context: false,
    }
}

impl AudioRequest {
    /// A request with nothing decoded yet.
    pub fn new() -> (r: AudioRequest)
        ensures
            r@.file is None,
            r@.payload == Seq::<u8>::empty(),
            r@.scalars == empty_scalars(),
    {
        AudioRequest {
            file: None,
            payload: Vec::new(),
            model: None,
            language: None,
            prompt: None,
            response_format: None,
            temperature: None,
            detect_language: None,
            offset_time: None,
            duration: None,
            max_context: None,
            max_len: None,
            split_on_word: None,
            use_new_context: false,
        }
    }
}

/// Whether a part counts as text: no content type, or a type under
/// `text/` in any ASCII case.
pub open spec fn is_text_part(pv: PartView) -> bool {
    match pv.content_type {
        None => true,
        Some(c) => has_prefix(lower_seq(c), lit_bytes(("text/")@)),
    }
}

/// The name an upload is persisted under: the derived WAV name when the
/// normalizer runs, the client-supplied name when it is disabled.
pub open spec fn stored_name_bytes(fname: Seq<u8>, preprocess: bool) -> Seq<u8> {
    if preprocess {
        wav_name_bytes(fname)
    } else {
        fname
    }
}

/// A stored name that keeps the archive confined to its root: no path
/// separator of either kind, and not the parent-directory name.  With
/// separators banned, a `..` segment can only be the whole name.
pub open spec fn safe_name(n: Seq<u8>) -> bool {
    &&& forall|i: int| 0 <= i < n.len() ==> #[trigger] n[i] != 0x2f && n[i] != 0x5c
    &&& n != lit_bytes(("..")@)
}

/// Whether a stored name keeps the archive confined.
pub fn check_safe_name(s: &[u8]) -> (r: bool)
    ensures
        r == safe_name(s@),
{
    let mut i: usize = 0;
    while i < s.len()
        invariant
            i <= s@.len(),
            forall|j: int| 0 <= j < i ==> #[trigger] s@[j] != 0x2f && s@[j] != 0x5c,
        decreases s@.len() - i,
    {
        let c = s[i];
        if c == 0x2f || c == 0x5c {
            return false;
        }
        i = i + 1;
    }
    !crate::bytes::bytes_eq(s, "..".as_bytes())
}

/// The purely input-determined duties of a file part: a filename must be
/// there, and the persisted name must be text the archive can hold that
/// keeps its writes confined to the archive root.
pub open spec fn file_part_ok(pv: PartView, preprocess: bool) -> bool {
    &&& pv.filename is Some
    &&& vstd::utf8::valid_utf8(stored_name_bytes(pv.filename->Some_0, preprocess))
    &&& safe_name(stored_name_bytes(pv.filename->Some_0, preprocess))
}

/// One non-file field applied to the scalars.  `None` is a client error:
/// a non-text part, a value that is not UTF-8 text, or one that fails its
/// strict parse.
pub open spec fn apply_scalar(sc: ScalarsView, pv: PartView, k: FieldKind) -> Option<ScalarsView> {
    if !is_text_part(pv) {
        None
    } else if !vstd::utf8::valid_utf8(pv.data) {
        None
    } else {
        let text = vstd::utf8::decode_utf8(pv.data);
        match k {
            FieldKind::Model => Some(ScalarsView { model: Some(text), ..sc }),
            FieldKind::Language => Some(ScalarsView { language: Some(text), ..sc }),
            FieldKind::Prompt => Some(ScalarsView { prompt: Some(text), ..sc }),
            FieldKind::ResponseFormat => Some(ScalarsView { response_format: Some(text), ..sc }),
            FieldKind::Temperature => if is_float_literal(trim_spec(pv.data)) {
                Some(ScalarsView { temperature: Some(text), ..sc })
            } else {
                None
            },
            FieldKind::DetectLanguage => if is_true_literal(pv.data) {
                Some(ScalarsView { detect_language: Some(true), ..sc })
            } else if is_false_literal(pv.data) {
                Some(ScalarsView { detect_language: Some(false), ..sc })
            } else {
                None
            },
            FieldKind::OffsetTime => if is_u64_literal_shape(pv.data) && u64_literal_val(pv.data)
                <= u64::MAX {
                Some(ScalarsView { offset_time: Some(u64_literal_val(pv.data) as u64), ..sc })
            } else {
                None
            },
            FieldKind::Duration => if is_u64_literal_shape(pv.data) && u64_literal_val(pv.data)
                <= u64::MAX {
                Some(ScalarsView { duration: Some(u64_literal_val(pv.data) as u64), ..sc })
            } else {
                None
            },
            FieldKind::MaxContext => if is_int_literal_shape(pv.data) && i32::MIN
                <= int_literal_val(pv.data) <= i32::MAX {
                Some(ScalarsView { max_context: Some(int_literal_val(pv.data) as i32), ..sc })
            } else {
                None
            },
            FieldKind::MaxLen => if is_u64_literal_shape(pv.data) && u64_literal_val(pv.data)
                <= u64::MAX {
                Some(ScalarsView { max_len: Some(u64_literal_val(pv.data) as u64), ..sc })
            } else {
                None
            },
            FieldKind::SplitOnWord => if is_true_literal(pv.data) {
                Some(ScalarsView { split_on_word: Some(true), ..sc })
            } else if is_false_literal(pv.data) {
                Some(ScalarsView { split_on_word: Some(false), ..sc })
            } else {
                None
            },
            FieldKind::UseNewContext => if is_true_literal(pv.data) {
                Some(ScalarsView { use_new_context: true, ..sc })
            } else if is_false_literal(pv.data) {
                Some(ScalarsView { use_new_context: false, ..sc })
            } else {
                None
            },
            FieldKind::File => None,
        }
    }
}

/// The input-determined outcome of decoding: the scalars after every
/// part, or `None` at the first part that is a client error.  File parts
/// only have their input-determined duties checked here; what the
/// archive and the converter add is stated by `decode_request` itself.
pub open spec fn spec_scan(parts: Seq<PartView>, preprocess: bool, sc: ScalarsView) -> Option<
    ScalarsView,
>
    decreases parts.len(),
{
    if parts.len() == 0 {
        Some(sc)
    } else {
        match field_kind_of(parts[0].name) {
            None => None,
            Some(FieldKind::File) => if file_part_ok(parts[0], preprocess) {
                spec_scan(parts.drop_first(), preprocess, sc)
            } else {
                None
            },
            Some(k) => match apply_scalar(sc, parts[0], k) {
                None => None,
                Some(sc2) => spec_scan(parts.drop_first(), preprocess, sc2),
            },
        }
    }
}

/// `detect_language = true` forces `language = "auto"`, overriding any
/// explicit language value.  The override runs after all fields are
/// decoded, not inline, so a language field after the flag is still
/// overridden: an inherited surprise kept on purpose.
pub open spec fn spec_finalize(sc: ScalarsView) -> ScalarsView {
    if sc.detect_language == Some(true) {
        ScalarsView { language: Some(("auto")@), ..sc }
    } else {
        sc
    }
}

/// Whether a part is a file field.
pub open spec fn is_file_part(pv: PartView) -> bool {
    field_kind_of(pv.name) == Some(FieldKind::File)
}

/// The file parts of a body, in order.
pub open spec fn file_parts(parts: Seq<PartView>) -> Seq<PartView>
    decreases parts.len(),
{
    if parts.len() == 0 {
        Seq::empty()
    } else if is_file_part(parts[0]) {
        seq![parts[0]] + file_parts(parts.drop_first())
    } else {
        file_parts(parts.drop_first())
    }
}

/// Whether a part meets its input-determined duty: a recognized name; on
/// a file part, a filename and an archivable stored name; on any other
/// part, a text part whose value parses for its kind.
pub open spec fn part_duty_ok(pv: PartView, preprocess: bool) -> bool {
    match field_kind_of(pv.name) {
        None => false,
        Some(FieldKind::File) => file_part_ok(pv, preprocess),
        Some(k) => apply_scalar(empty_scalars(), pv, k) is Some,
    }
}

/// The first part failing its duty, if any part does.
pub open spec fn first_bad_part(views: Seq<PartView>, preprocess: bool) -> Option<int>
    decreases views.len(),
{
    if views.len() == 0 {
        None
    } else if !part_duty_ok(views[0], preprocess) {
        Some(0)
    } else {
        match first_bad_part(views.drop_first(), preprocess) {
            None => None,
            Some(i) => Some(i + 1),
        }
    }
}

/// When every part before `k` meets its duty and the part at `k` does
/// not, `k` is the first failing part.
proof fn lemma_first_bad_here(views: Seq<PartView>, preprocess: bool, k: int)
    requires
        0 <= k < views.len(),
        forall|j: int| 0 <= j < k ==> part_duty_ok(#[trigger] views[j], preprocess),
        !part_duty_ok(views[k], preprocess),
    ensures
        first_bad_part(views, preprocess) == Some(k),
    decreases k,
{
    if k == 0 {
    } else {
        let d = views.drop_first();
        assert(views[0] == views[0]);
        assert(part_duty_ok(views[0], preprocess));
        assert(d[k - 1] == views[k]);
        assert(forall|j: int| 0 <= j < k - 1 ==> d[j] == views[j + 1] && part_duty_ok(
            #[trigger] views[j + 1],
            preprocess,
        ));
        lemma_first_bad_here(d, preprocess, k - 1);
    }
}

/// When every part meets its duty, no part fails it.
proof fn lemma_first_bad_none(views: Seq<PartView>, preprocess: bool)
    requires
        forall|j: int| 0 <= j < views.len() ==> part_duty_ok(#[trigger] views[j], preprocess),
    ensures
        first_bad_part(views, preprocess) is None,
    decreases views.len(),
{
    if views.len() > 0 {
        let d = views.drop_first();
        assert(forall|j: int| 0 <= j < d.len() ==> d[j] == views[j + 1] && part_duty_ok(
            #[trigger] views[j + 1],
            preprocess,
        ));
        lemma_first_bad_none(d, preprocess);
    }
}

/// The file parts of a body split at `k` into the file parts of the two
/// halves.
proof fn lemma_file_parts_take(views: Seq<PartView>, k: int)
    requires
        0 <= k <= views.len(),
    ensures
        file_parts(views) == file_parts(views.take(k)) + file_parts(views.skip(k)),
    decreases k,
{
    if k == 0 {
        assert(views.take(0) =~= Seq::<PartView>::empty());
        assert(views.skip(0) =~= views);
        assert(file_parts(views.take(0)) + file_parts(views) =~= file_parts(views));
    } else {
        let d = views.drop_first();
        lemma_file_parts_take(d, k - 1);
        let t = views.take(k);
        assert(t[0] == views[0]);
        assert(t.drop_first() =~= d.take(k - 1));
        assert(views.skip(k) =~= d.skip(k - 1));
        if is_file_part(views[0]) {
            assert(file_parts(views) == seq![views[0]] + file_parts(d));
            assert(file_parts(t) == seq![views[0]] + file_parts(d.take(k - 1)));
            assert((seq![views[0]] + file_parts(d.take(k - 1))) + file_parts(d.skip(k - 1)) =~= seq![
                views[0],
            ] + (file_parts(d.take(k - 1)) + file_parts(d.skip(k - 1))));
        } else {
            assert(file_parts(views) == file_parts(d));
            assert(file_parts(t) == file_parts(d.take(k - 1)));
        }
    }
}

/// The first failing part, when there is one, fails its duty and
/// everything before it meets its own.
proof fn lemma_first_bad_props(views: Seq<PartView>, preprocess: bool)
    ensures
        match first_bad_part(views, preprocess) {
            Some(i) => {
                &&& 0 <= i < views.len()
                &&& !part_duty_ok(views[i], preprocess)
                &&& forall|j: int| 0 <= j < i ==> part_duty_ok(#[trigger] views[j], preprocess)
            },
            None => forall|j: int|
                0 <= j < views.len() ==> part_duty_ok(#[trigger] views[j], preprocess),
        },
    decreases views.len(),
{
    if views.len() > 0 && part_duty_ok(views[0], preprocess) {
        let d = views.drop_first();
        lemma_first_bad_props(d, preprocess);
        match first_bad_part(d, preprocess) {
            Some(i2) => {
                assert(first_bad_part(views, preprocess) == Some(i2 + 1));
                assert(d[i2] == views[i2 + 1]);
                assert forall|j: int| 0 <= j < i2 + 1 implies part_duty_ok(
                    #[trigger] views[j],
                    preprocess,
                ) by {
                    if j > 0 {
                        assert(d[j - 1] == views[j]);
                        assert(part_duty_ok(d[j - 1], preprocess));
                    }
                }
            },
            None => {
                assert forall|j: int| 0 <= j < views.len() implies part_duty_ok(
                    #[trigger] views[j],
                    preprocess,
                ) by {
                    if j > 0 {
                        assert(d[j - 1] == views[j]);
                        assert(part_duty_ok(d[j - 1], preprocess));
                    }
                }
            },
        }
    }
}

/// A file part before position `i` puts a file part into the prefix.
proof fn lemma_file_part_in_take(views: Seq<PartView>, k: int, i: int)
    requires
        0 <= k < i <= views.len(),
        is_file_part(views[k]),
    ensures
        file_parts(views.take(i)).len() >= 1,
{
    let t = views.take(i);
    lemma_file_parts_take(t, k);
    assert(t.skip(k)[0] == views[k]);
    assert(file_parts(t.skip(k)) == seq![t.skip(k)[0]] + file_parts(t.skip(k).drop_first()));
}

/// Concatenations with the same tail have the same head.
proof fn lemma_concat_cancel(a: Seq<PartView>, b: Seq<PartView>, c: Seq<PartView>)
    requires
        a + b == c + b,
    ensures
        a == c,
{
    assert((a + b).len() == a.len() + b.len());
    assert((c + b).len() == c.len() + b.len());
    assert(a.len() == c.len());
    assert forall|x: int| 0 <= x < a.len() implies a[x] == c[x] by {
        assert((a + b)[x] == a[x]);
        assert((c + b)[x] == c[x]);
    }
    assert(a =~= c);
}


/// Checks whether a part is a text part.
fn check_text_part(p: &RawPart) -> (r: bool)
    ensures
        r == is_text_part(p@),
{
    match &p.content_type {
        None => true,
        Some(c) => {
            let lowered = crate::bytes::lower_vec(c.as_slice());
            crate::bytes::starts_with(lowered.as_slice(), "text/".as_bytes())
        },
    }
}

/// Decodes the parts of a multipart body into a typed request against a
/// mutable archive.  Scalars follow `spec_scan` exactly; each file part
/// is archived in body order before decoding continues, under the name
/// the normalizer will write, and the decoded request carries the
/// metadata and payload of the last archived upload.  A body with no
/// file field is rejected with `BadRequest` and leaves the archive
/// untouched; a part that fails its input-determined duty rejects the
/// request naming the archive state precisely, and once every duty holds
/// and a file field is there, only the clock or an id collision can
/// still fail the request.
#[verifier::loop_isolation(false)]
pub fn decode_request(
    archive: &mut FileArchive,
    parts: &Vec<RawPart>,
    preprocess: bool,
    archive_dir: &str,
) -> (r: Result<AudioRequest, ErrorResponse>)
    requires
        old(archive).wf(),
    ensures
        final(archive).wf(),
        old(archive)@.is_prefix_of(final(archive)@),
        final(archive)@.len() <= old(archive)@.len() + file_parts(part_views(parts@)).len(),
        match r {
            Ok(req) => {
                let views = part_views(parts@);
                let fps = file_parts(views);
                &&& spec_scan(views, preprocess, empty_scalars()) is Some
                &&& req@.scalars == spec_finalize(
                    spec_scan(views, preprocess, empty_scalars())->Some_0,
                )
                &&& fps.len() >= 1
                &&& final(archive)@.len() == old(archive)@.len() + fps.len()
                &&& forall|j: int|
                    0 <= j < fps.len() ==> {
                        let e = #[trigger] final(archive)@[old(archive)@.len() + j];
                        &&& e.bytes == fps[j].data.len()
                        &&& vstd::utf8::encode_utf8(e.filename) == stored_name_bytes(
                            fps[j].filename->Some_0,
                            preprocess,
                        )
                        &&& crate::archive::is_generated_id(e.id)
                    }
                &&& req@.file == Some(final(archive)@.last())
                &&& req@.payload == fps.last().data
            },
            Err(e) => {
                let views = part_views(parts@);
                let fps = file_parts(views);
                let bad = first_bad_part(views, preprocess);
                &&& (e.kind == ErrorKind::BadRequest || e.kind == ErrorKind::IOFailure)
                &&& (fps.len() == 0 ==> e.kind == ErrorKind::BadRequest && final(archive)@
                    == old(archive)@)
                &&& (e.kind == ErrorKind::BadRequest ==> match bad {
                    Some(i) => {
                        &&& final(archive)@.len() == old(archive)@.len() + file_parts(
                            views.take(i),
                        ).len()
                        &&& (file_parts(views.take(i)).len() == 0 ==> final(archive)@ == old(
                            archive,
                        )@)
                        &&& (field_kind_of(views[i].name) is None ==> e.message@ == crate::json::lit_bytes(
                            ("Invalid field name: ")@,
                        ) + views[i].name)
                    },
                    None => final(archive)@ == old(archive)@,
                })
                &&& (bad matches Some(i) && file_parts(views.take(i)).len() == 0 ==> e.kind
                    == ErrorKind::BadRequest)
                &&& (e.kind == ErrorKind::IOFailure ==> fps.len() >= 1)
                &&& (bad is None && fps.len() >= 1 ==> e.kind == ErrorKind::IOFailure)
            },
        },
{
    let ghost views = part_views(parts@);
    let ghost base = old(archive)@;
    let mut req = AudioRequest::new();
    let ghost mut fp_done: Seq<PartView> = Seq::empty();
    let mut k: usize = 0;
    proof {
        assert(views.skip(0) =~= views);
        assert(fp_done + file_parts(views.skip(0)) =~= file_parts(views));
        assert(base.is_prefix_of(archive@));
    }
    while k < parts.len()
        invariant
            k <= parts@.len(),
            archive.wf(),
            base.len() + fp_done.len() == archive@.len(),
            base.is_prefix_of(archive@),
            file_parts(views) == fp_done + file_parts(views.skip(k as int)),
            forall|j: int| 0 <= j < k ==> part_duty_ok(#[trigger] views[j], preprocess),
            forall|j: int|
                0 <= j < fp_done.len() ==> {
                    let e = #[trigger] archive@[base.len() + j];
                    &&& e.bytes == fp_done[j].data.len()
                    &&& vstd::utf8::encode_utf8(e.filename) == stored_name_bytes(
                        fp_done[j].filename->Some_0,
                        preprocess,
                    )
                    &&& crate::archive::is_generated_id(e.id)
                },
            match req@.file {
                Some(f) => fp_done.len() >= 1 && archive@.len() > 0 && f == archive@.last()
                    && req@.payload == fp_done.last().data,
                None => fp_done.len() == 0,
            },
            spec_scan(views, preprocess, empty_scalars()) == spec_scan(
                views.skip(k as int),
                preprocess,
                req@.scalars,
            ),
        decreases parts@.len() - k,
    {
        let ghost skipped = views.skip(k as int);
        proof {
            assert(skipped[0] == parts@[k as int]@);
            assert(skipped.drop_first() =~= views.skip(k + 1));
        }
        let part = &parts[k];
        let kind = match field_kind(part.name.as_slice()) {
            None => {
                let mut msg: Vec<u8> = Vec::new();
                crate::json::push_lit(&mut msg, "Invalid field name: ");
                crate::json::push_bytes(&mut msg, part.name.as_slice());
                proof {
                    assert(!part_duty_ok(skipped[0], preprocess));
                    lemma_first_bad_here(views, preprocess, k as int);
                    lemma_file_parts_take(views, k as int);
                    lemma_concat_cancel(
                        file_parts(views.take(k as int)),
                        file_parts(views.skip(k as int)),
                        fp_done,
                    );
                    if file_parts(views).len() == 0 || file_parts(views.take(k as int)).len()
                        == 0 {
                        assert(fp_done.len() == 0);
                        assert(archive@ =~= base);
                    }
                }
                return Err(ErrorResponse { kind: ErrorKind::BadRequest, message: msg });
            },
            Some(kd) => kd,
        };
        if matches!(kind, FieldKind::File) {
            proof {
                assert(is_file_part(skipped[0]));
                assert(file_parts(skipped) == seq![skipped[0]] + file_parts(views.skip(k + 1)));
            }
            let filename: &Vec<u8> = match &part.filename {
                None => {
                    proof {
                        assert(!file_part_ok(skipped[0], preprocess));
                        assert(!part_duty_ok(skipped[0], preprocess));
                        lemma_first_bad_here(views, preprocess, k as int);
                        lemma_file_parts_take(views, k as int);
                        lemma_concat_cancel(
                            file_parts(views.take(k as int)),
                            file_parts(views.skip(k as int)),
                            fp_done,
                        );
                        if file_parts(views).len() == 0 || file_parts(views.take(k as int)).len()
                            == 0 {
                            assert(fp_done.len() == 0);
                            assert(archive@ =~= base);
                        }
                    }
                    return Err(
                        ErrorResponse::new(
                            ErrorKind::BadRequest,
                            "Failed to upload the target file. The filename is not provided.",
                        ),
                    );
                },
                Some(f) => f,
            };
            let stored: Vec<u8> = if preprocess {
                crate::convert::wav_name(filename.as_slice())
            } else {
                crate::bytes::sub_bytes(filename.as_slice(), 0, filename.len())
            };
            proof {
                assert(stored@ == stored_name_bytes(skipped[0].filename->Some_0, preprocess));
            }
            let ghost stored_bytes = stored@;
            if !check_safe_name(stored.as_slice()) {
                proof {
                    assert(!file_part_ok(skipped[0], preprocess));
                    assert(!part_duty_ok(skipped[0], preprocess));
                    lemma_first_bad_here(views, preprocess, k as int);
                    lemma_file_parts_take(views, k as int);
                    lemma_concat_cancel(
                        file_parts(views.take(k as int)),
                        file_parts(views.skip(k as int)),
                        fp_done,
                    );
                    if file_parts(views).len() == 0 || file_parts(views.take(k as int)).len()
                        == 0 {
                        assert(fp_done.len() == 0);
                        assert(archive@ =~= base);
                    }
                }
                return Err(
                    ErrorResponse::new(
                        ErrorKind::BadRequest,
                        "The uploaded filename must not name directories.",
                    ),
                );
            }
            let stored_name = match crate::convert::string_from_utf8(stored) {
                None => {
                    proof {
                        assert(!file_part_ok(skipped[0], preprocess));
                        assert(!part_duty_ok(skipped[0], preprocess));
                        lemma_first_bad_here(views, preprocess, k as int);
                        lemma_file_parts_take(views, k as int);
                        lemma_concat_cancel(
                            file_parts(views.take(k as int)),
                            file_parts(views.skip(k as int)),
                            fp_done,
                        );
                        if file_parts(views).len() == 0 || file_parts(views.take(k as int)).len()
                            == 0 {
                            assert(fp_done.len() == 0);
                            assert(archive@ =~= base);
                        }
                    }
                    return Err(
                        ErrorResponse::new(
                            ErrorKind::BadRequest,
                            "The name of the uploaded file is not valid text.",
                        ),
                    );
                },
                Some(sn) => sn,
            };
            let id = crate::archive::generate_id();
            let data_len = part.data.len();
            let entry = match archive.create_timed(id, stored_name, data_len as u64) {
                Err(e) => {
                    proof {
                        assert(part_duty_ok(skipped[0], preprocess));
                        lemma_first_bad_props(views, preprocess);
                        match first_bad_part(views, preprocess) {
                            Some(i) => {
                                assert(i > k);
                                lemma_file_part_in_take(views, k as int, i);
                            },
                            None => {},
                        }
                    }
                    return Err(e);
                },
                Ok(en) => en,
            };
            let ghost prev_done = fp_done;
            let ghost arch_after = archive@;
            proof {
                fp_done = fp_done.push(skipped[0]);
                assert(prev_done + seq![skipped[0]] =~= fp_done);
                assert((prev_done + seq![skipped[0]]) + file_parts(views.skip(k + 1)) =~= fp_done
                    + file_parts(views.skip(k + 1)));
                assert(file_parts(views) =~= fp_done + file_parts(views.skip(k + 1)));
            }
            req.file = Some(entry);
            req.payload = crate::bytes::sub_bytes(part.data.as_slice(), 0, data_len);
            proof {
                assert(req@.payload =~= skipped[0].data);
                assert(arch_after.last() == entry@);
                assert(part_duty_ok(skipped[0], preprocess));
                assert forall|j: int| 0 <= j < fp_done.len() implies {
                    let e = #[trigger] archive@[base.len() + j];
                    &&& e.bytes == fp_done[j].data.len()
                    &&& vstd::utf8::encode_utf8(e.filename) == stored_name_bytes(
                        fp_done[j].filename->Some_0,
                        preprocess,
                    )
                    &&& crate::archive::is_generated_id(e.id)
                } by {
                    if j < fp_done.len() - 1 {
                        assert(fp_done[j] == prev_done[j]);
                    } else {
                        assert(archive@[base.len() + j] == entry@);
                        assert(entry@.filename == vstd::utf8::decode_utf8(stored_bytes));
                        vstd::utf8::decode_utf8_encode_utf8(stored_bytes);
                    }
                }
            }
        } else {
            if !check_text_part(part) {
                proof {
                    assert(apply_scalar(empty_scalars(), skipped[0], kind) is None);
                    assert(!part_duty_ok(skipped[0], preprocess));
                    lemma_first_bad_here(views, preprocess, k as int);
                    lemma_file_parts_take(views, k as int);
                    lemma_concat_cancel(
                        file_parts(views.take(k as int)),
                        file_parts(views.skip(k as int)),
                        fp_done,
                    );
                    if file_parts(views).len() == 0 || file_parts(views.take(k as int)).len()
                        == 0 {
                        assert(fp_done.len() == 0);
                        assert(archive@ =~= base);
                    }
                }
                return Err(
                    ErrorResponse::new(
                        ErrorKind::BadRequest,
                        "The field in the request should be a text field.",
                    ),
                );
            }
            let data_copy = crate::bytes::sub_bytes(part.data.as_slice(), 0, part.data.len());
            proof {
                assert(data_copy@ =~= part.data@);
            }
            let ghost data_bytes = data_copy@;
            let text = match crate::convert::string_from_utf8(data_copy) {
                None => {
                    proof {
                        assert(!vstd::utf8::valid_utf8(skipped[0].data));
                        assert(apply_scalar(req@.scalars, skipped[0], kind) is None);
                        assert(apply_scalar(empty_scalars(), skipped[0], kind) is None);
                        assert(!part_duty_ok(skipped[0], preprocess));
                        lemma_first_bad_here(views, preprocess, k as int);
                        lemma_file_parts_take(views, k as int);
                        lemma_concat_cancel(
                            file_parts(views.take(k as int)),
                            file_parts(views.skip(k as int)),
                            fp_done,
                        );
                        if file_parts(views).len() == 0 || file_parts(views.take(k as int)).len()
                            == 0 {
                            assert(fp_done.len() == 0);
                            assert(archive@ =~= base);
                        }
                    }
                    return Err(
                        ErrorResponse::new(
                            ErrorKind::BadRequest,
                            "The field value is not valid text.",
                        ),
                    );
                },
                Some(t) => t,
            };
            let ghost text_chars = text@;
            let ghost sc0 = req@.scalars;
            let mut scalar_ok = true;
            match kind {
                FieldKind::Model => {
                    req.model = Some(text);
                },
                FieldKind::Language => {
                    req.language = Some(text);
                },
                FieldKind::Prompt => {
                    req.prompt = Some(text);
                },
                FieldKind::ResponseFormat => {
                    req.response_format = Some(text);
                },
                FieldKind::Temperature => {
                    let trimmed = crate::bytes::trim_ascii(part.data.as_slice());
                    if crate::numtext::check_float_literal(trimmed.as_slice()) {
                        req.temperature = Some(text);
                    } else {
                        scalar_ok = false;
                    }
                },
                FieldKind::DetectLanguage => {
                    match crate::numtext::parse_bool(part.data.as_slice()) {
                        Some(b) => {
                            req.detect_language = Some(b);
                        },
                        None => {
                            scalar_ok = false;
                        },
                    }
                },
                FieldKind::OffsetTime => {
                    match crate::numtext::parse_u64(part.data.as_slice()) {
                        Some(n) => {
                            req.offset_time = Some(n);
                        },
                        None => {
                            scalar_ok = false;
                        },
                    }
                },
                FieldKind::Duration => {
                    match crate::numtext::parse_u64(part.data.as_slice()) {
                        Some(n) => {
                            req.duration = Some(n);
                        },
                        None => {
                            scalar_ok = false;
                        },
                    }
                },
                FieldKind::MaxContext => {
                    match crate::numtext::parse_i32(part.data.as_slice()) {
                        Some(n) => {
                            req.max_context = Some(n);
                        },
                        None => {
                            scalar_ok = false;
                        },
                    }
                },
                FieldKind::MaxLen => {
                    match crate::numtext::parse_u64(part.data.as_slice()) {
                        Some(n) => {
                            req.max_len = Some(n);
                        },
                        None => {
                            scalar_ok = false;
                        },
                    }
                },
                FieldKind::SplitOnWord => {
                    match crate::numtext::parse_bool(part.data.as_slice()) {
                        Some(b) => {
                            req.split_on_word = Some(b);
                        },
                        None => {
                            scalar_ok = false;
                        },
                    }
                },
                FieldKind::UseNewContext => {
                    match crate::numtext::parse_bool(part.data.as_slice()) {
                        Some(b) => {
                            req.use_new_context = b;
                        },
                        None => {
                            scalar_ok = false;
                        },
                    }
                },
                FieldKind::File => {
                    proof {
                        assert(false);
                    }
                },
            }
            if !scalar_ok {
                proof {
                    assert(apply_scalar(sc0, skipped[0], kind) is None);
                    assert(apply_scalar(empty_scalars(), skipped[0], kind) is None);
                    assert(!part_duty_ok(skipped[0], preprocess));
                    lemma_first_bad_here(views, preprocess, k as int);
                    lemma_file_parts_take(views, k as int);
                    lemma_concat_cancel(
                        file_parts(views.take(k as int)),
                        file_parts(views.skip(k as int)),
                        fp_done,
                    );
                    if file_parts(views).len() == 0 || file_parts(views.take(k as int)).len()
                        == 0 {
                        assert(fp_done.len() == 0);
                        assert(archive@ =~= base);
                    }
                }
                return Err(
                    ErrorResponse::new(
                        ErrorKind::BadRequest,
                        "Failed to parse the field value.",
                    ),
                );
            }
            proof {
                assert(text_chars == vstd::utf8::decode_utf8(skipped[0].data));
                assert(apply_scalar(sc0, skipped[0], kind) == Some(req@.scalars));
                assert(apply_scalar(empty_scalars(), skipped[0], kind) is Some);
                assert(part_duty_ok(skipped[0], preprocess));
                assert(spec_scan(skipped, preprocess, sc0) == spec_scan(
                    views.skip(k + 1),
                    preprocess,
                    req@.scalars,
                ));
            }
        }
        k = k + 1;
    }
    proof {
        assert(views.skip(views.len() as int) =~= Seq::<PartView>::empty());
        assert(file_parts(views) =~= fp_done);
    }
    if req.file.is_none() {
        proof {
            lemma_first_bad_none(views, preprocess);
            assert(fp_done.len() == 0);
            assert(archive@ =~= base);
        }
        return Err(
            ErrorResponse::new(
                ErrorKind::BadRequest,
                "The file field is missing in the request.",
            ),
        );
    }
    if matches!(req.detect_language, Some(true)) {
        req.language = Some(String::from_str("auto"));
    }
    Ok(req)
}


/// An unknown field name anywhere among the parts fails the whole scan:
/// decoding aborts, whatever else the body holds.
pub proof fn lemma_unknown_field_scans_none(
    parts: Seq<PartView>,
    preprocess: bool,
    sc: ScalarsView,
    i: int,
)
    requires
        0 <= i < parts.len(),
        field_kind_of(parts[i].name) is None,
    ensures
        spec_scan(parts, preprocess, sc) is None,
    decreases i,
{
    if i == 0 {
    } else {
        match field_kind_of(parts[0].name) {
            None => {},
            Some(FieldKind::File) => {
                if file_part_ok(parts[0], preprocess) {
                    assert(parts.drop_first()[i - 1] == parts[i]);
                    lemma_unknown_field_scans_none(parts.drop_first(), preprocess, sc, i - 1);
                }
            },
            Some(k) => {
                match apply_scalar(sc, parts[0], k) {
                    None => {},
                    Some(sc2) => {
                        assert(parts.drop_first()[i - 1] == parts[i]);
                        lemma_unknown_field_scans_none(parts.drop_first(), preprocess, sc2, i - 1);
                    },
                }
            },
        }
    }
}

} // verus!
