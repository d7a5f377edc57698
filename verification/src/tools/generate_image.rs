//! Image generation: which backends are tried and in what order, what each is
//! sent, and what its reply means.
use vstd::prelude::*;

use super::result::{Reply, ToolResult};
use crate::json::{compact, literal, member, param, param_of, text, to_compact, to_literal, Json};
use crate::paths::{file_name, file_name_of};
use crate::search::{
    before, before_char, contains, dec_u64, dec_usize, decimal, has, has_prefix, join, join_strs,
    last_index_of, law_search_finds, lemma_last_index_of, lemma_tells, rfind_char, starts_with, tells,
};
use crate::text::{
    blank, cat2, cat3, cat4, cat5, char_is_ascii_alnum, chars_of, is_ascii_alnum, is_blank, oview,
    str_eq, strip_trailing, trim, trim_end_of_char, trimmed, views,
};

verus! {

/// The root of Google's image service.
pub const GEMINI_BASE_URL: &'static str = "https://generativelanguage.googleapis.com/v1beta";

/// What a base address holds where it speaks Google's protocol.
pub const GEMINI_HOST_MARKER: &'static str = "generativelanguage.googleapis.com";

/// The hint where no route is configured.
pub const GENERATION_SETUP_HINT: &'static str = "Image generation is not configured. Options: `/onboard:image gemini <GOOGLE_AI_KEY>` for Gemini, or set `generation_model = \"<model>\"` on a provider section (`[providers.<name>]` / `[providers.custom.<name>]` with base_url) to route through any OpenAI-compatible `/images/generations` endpoint. Pin a non-active provider with `[providers.fallback] generation = [\"<name>\", ...]`.";

/// Which protocol a call speaks.
pub enum Backend {
    Gemini { api_key: String },
    OpenAi { api_key: String, base_url: String },
}

/// One route: a backend and the model to call on it.
pub struct GenerationCandidate {
    pub backend: Backend,
    pub model: String,
}

/// A route, as values.
pub enum RouteV {
    Gemini { api_key: Seq<char>, model: Seq<char> },
    OpenAi { api_key: Seq<char>, base_url: Seq<char>, model: Seq<char> },
}

impl View for GenerationCandidate {
    type V = RouteV;

    open spec fn view(&self) -> RouteV {
        match self.backend {
            Backend::Gemini { api_key } => RouteV::Gemini { api_key: api_key@, model: self.model@ },
            Backend::OpenAi { api_key, base_url } => RouteV::OpenAi {
                api_key: api_key@,
                base_url: base_url@,
                model: self.model@,
            },
        }
    }
}

pub open spec fn routes(v: Seq<GenerationCandidate>) -> Seq<RouteV> {
    v.map_values(|c: GenerationCandidate| c@)
}

pub open spec fn route_model(r: RouteV) -> Seq<char> {
    match r {
        RouteV::Gemini { api_key, model } => model,
        RouteV::OpenAi { api_key, base_url, model } => model,
    }
}

pub open spec fn route_kind(r: RouteV) -> Seq<char> {
    if r is Gemini {
        "gemini"@
    } else {
        "openai"@
    }
}

impl GenerationCandidate {
    /// The protocol's name.
    pub fn backend_kind(&self) -> (r: &'static str)
        ensures
            r@ == route_kind(self@),
    {
        match &self.backend {
            Backend::Gemini { .. } => "gemini",
            Backend::OpenAi { .. } => "openai",
        }
    }

    /// The model this route calls.
    pub fn model(&self) -> (r: &str)
        ensures
            r@ == route_model(self@),
    {
        self.model.as_str()
    }

    /// Whether the route takes an input image; only Google's protocol does.
    pub fn supports_image_input(&self) -> (r: bool)
        ensures
            r == (self@ is Gemini),
    {
        match &self.backend {
            Backend::Gemini { .. } => true,
            Backend::OpenAi { .. } => false,
        }
    }

    fn copy(&self) -> (r: Self)
        ensures
            r@ == self@,
    {
        GenerationCandidate {
            backend: match &self.backend {
                Backend::Gemini { api_key } => Backend::Gemini { api_key: api_key.clone() },
                Backend::OpenAi { api_key, base_url } => Backend::OpenAi {
                    api_key: api_key.clone(),
                    base_url: base_url.clone(),
                },
            },
            model: self.model.clone(),
        }
    }
}

/// The tool. Pinned routes are tried as they are; without any, the routes are
/// planned per request.
pub struct GenerateImageTool {
    pub pinned: Vec<GenerationCandidate>,
}

/// A provider's route: key, base address and model.
pub struct ProviderRoute {
    pub api_key: String,
    pub base_url: String,
    pub model: String,
}

/// The global image section.
pub struct GlobalGeneration {
    pub enabled: bool,
    pub api_key: Option<String>,
    pub model: String,
}

/// The route of a provider; its address decides the protocol.
pub open spec fn provider_route(p: ProviderRoute) -> RouteV {
    if has(p.base_url@, GEMINI_HOST_MARKER@) {
        RouteV::Gemini { api_key: p.api_key@, model: p.model@ }
    } else {
        RouteV::OpenAi { api_key: p.api_key@, base_url: p.base_url@, model: p.model@ }
    }
}

/// The global route, where it is enabled and has a key.
pub open spec fn global_route(g: GlobalGeneration) -> Option<RouteV> {
    if !g.enabled {
        None
    } else {
        match g.api_key {
            Some(k) => Some(RouteV::Gemini { api_key: k@, model: g.model@ }),
            None => None,
        }
    }
}

/// Each route once, where it comes first.
pub open spec fn distinct(v: Seq<RouteV>) -> Seq<RouteV>
    decreases v.len(),
{
    if v.len() == 0 {
        v
    } else {
        once_more(distinct(v.drop_last()), v.last())
    }
}

/// The routes with one more, unless it is already there.
pub open spec fn once_more(v: Seq<RouteV>, r: RouteV) -> Seq<RouteV> {
    if v.contains(r) {
        v
    } else {
        v.push(r)
    }
}

/// The routes of the providers.
pub open spec fn provider_routes(providers: Seq<ProviderRoute>) -> Seq<RouteV> {
    providers.map_values(|p: ProviderRoute| provider_route(p))
}

/// The routes in order, each once: the providers', then the global one.
pub open spec fn planned(providers: Seq<ProviderRoute>, g: GlobalGeneration) -> Seq<RouteV> {
    let own = distinct(provider_routes(providers));
    match global_route(g) {
        Some(r) => once_more(own, r),
        None => own,
    }
}

impl GenerateImageTool {
    /// One pinned route through Google.
    pub fn new(api_key: String, model: String) -> (r: Self)
        ensures
            routes(r.pinned@) == seq![RouteV::Gemini { api_key: api_key@, model: model@ }],
    {
        let ghost want = seq![RouteV::Gemini { api_key: api_key@, model: model@ }];
        let mut pinned: Vec<GenerationCandidate> = Vec::new();
        pinned.push(GenerationCandidate { backend: Backend::Gemini { api_key }, model });
        assert(routes(pinned@) =~= want);
        GenerateImageTool { pinned }
    }

    /// One pinned route through an OpenAI-compatible service.
    pub fn with_openai_backend(api_key: String, base_url: String, model: String) -> (r: Self)
        ensures
            routes(r.pinned@) == seq![
                RouteV::OpenAi { api_key: api_key@, base_url: base_url@, model: model@ },
            ],
    {
        let ghost want = seq![
            RouteV::OpenAi { api_key: api_key@, base_url: base_url@, model: model@ },
        ];
        let mut pinned: Vec<GenerationCandidate> = Vec::new();
        pinned.push(GenerationCandidate { backend: Backend::OpenAi { api_key, base_url }, model });
        assert(routes(pinned@) =~= want);
        GenerateImageTool { pinned }
    }

    /// No pinned route: they are planned per request.
    pub fn dynamic() -> (r: Self)
        ensures
            r.pinned@.len() == 0,
    {
        GenerateImageTool { pinned: Vec::new() }
    }

    fn candidate_of(p: &ProviderRoute) -> (r: GenerationCandidate)
        ensures
            r@ == provider_route(*p),
    {
        if contains(p.base_url.as_str(), GEMINI_HOST_MARKER) {
            GenerationCandidate {
                backend: Backend::Gemini { api_key: p.api_key.clone() },
                model: p.model.clone(),
            }
        } else {
            GenerationCandidate {
                backend: Backend::OpenAi {
                    api_key: p.api_key.clone(),
                    base_url: p.base_url.clone(),
                },
                model: p.model.clone(),
            }
        }
    }

    fn global_gemini_candidate(g: &GlobalGeneration) -> (r: Option<GenerationCandidate>)
        ensures
            match r {
                Some(c) => global_route(*g) == Some(c@) && c.backend is Gemini,
                None => global_route(*g) is None,
            },
    {
        if !g.enabled {
            return None;
        }
        match &g.api_key {
            Some(k) => Some(
                GenerationCandidate {
                    backend: Backend::Gemini { api_key: k.clone() },
                    model: g.model.clone(),
                },
            ),
            None => None,
        }
    }

    fn same(a: &GenerationCandidate, b: &GenerationCandidate) -> (r: bool)
        ensures
            r == (a@ == b@),
    {
        if !str_eq(a.model.as_str(), b.model.as_str()) {
            return false;
        }
        match (&a.backend, &b.backend) {
            (Backend::Gemini { api_key: x }, Backend::Gemini { api_key: y }) => str_eq(
                x.as_str(),
                y.as_str(),
            ),
            (
                Backend::OpenAi { api_key: x, base_url: u },
                Backend::OpenAi { api_key: y, base_url: v },
            ) => str_eq(x.as_str(), y.as_str()) && str_eq(u.as_str(), v.as_str()),
            _ => false,
        }
    }

    fn add_once(out: &mut Vec<GenerationCandidate>, c: GenerationCandidate)
        ensures
            routes(final(out)@) == once_more(routes(old(out)@), c@),
    {
        let ghost v = routes(out@);
        let mut k: usize = 0;
        while k < out.len()
            invariant
                k <= out.len(),
                v == routes(out@),
                *out == *old(out),
                forall|x: int| 0 <= x < k ==> #[trigger] v[x] != c@,
            decreases out.len() - k,
        {
            assert(v[k as int] == out@[k as int]@);
            if Self::same(&out[k], &c) {
                assert(v.contains(c@));
                return;
            }
            k = k + 1;
        }
        assert(!v.contains(c@));
        let ghost r = c@;
        out.push(c);
        assert(routes(out@) =~= v.push(r));
    }

    /// The routes in order, each once: the session's provider and the fallback
    /// chain, as given, then the global route, which alone its own switch can
    /// veto.
    pub fn plan_candidates(providers: &Vec<ProviderRoute>, global: &GlobalGeneration) -> (r: Vec<
        GenerationCandidate,
    >)
        ensures
            routes(r@) == planned(providers@, *global),
    {
        let ghost own = provider_routes(providers@);
        let mut out: Vec<GenerationCandidate> = Vec::new();
        let mut i: usize = 0;
        assert(own.take(0) =~= Seq::empty());
        assert(routes(out@) =~= Seq::empty());
        while i < providers.len()
            invariant
                i <= providers.len(),
                own == provider_routes(providers@),
                routes(out@) == distinct(own.take(i as int)),
            decreases providers.len() - i,
        {
            assert(own.take(i + 1).drop_last() =~= own.take(i as int));
            Self::add_once(&mut out, Self::candidate_of(&providers[i]));
            i = i + 1;
        }
        assert(own.take(i as int) =~= own);
        if let Some(g) = Self::global_gemini_candidate(global) {
            Self::add_once(&mut out, g);
        }
        out
    }

    /// The tool, where there is any route at all. It plans anew per request.
    pub fn from_config(providers: &Vec<ProviderRoute>, global: &GlobalGeneration) -> (r: Option<
        Self,
    >)
        ensures
            match r {
                Some(t) => planned(providers@, *global).len() > 0 && t.pinned@.len() == 0,
                None => planned(providers@, *global).len() == 0,
            },
    {
        let plan = Self::plan_candidates(providers, global);
        assert(routes(plan@).len() == plan.len());
        if plan.len() > 0 {
            Some(Self::dynamic())
        } else {
            None
        }
    }

    /// The routes of a request: the pinned ones, else those planned from the
    /// live configuration.
    pub fn candidates(
        &self,
        providers: &Vec<ProviderRoute>,
        global: &GlobalGeneration,
    ) -> (r: Vec<GenerationCandidate>)
        ensures
            routes(r@) == if self.pinned@.len() == 0 {
                planned(providers@, *global)
            } else {
                routes(self.pinned@)
            },
    {
        if self.pinned.len() == 0 {
            return Self::plan_candidates(providers, global);
        }
        let mut out: Vec<GenerationCandidate> = Vec::new();
        let mut i: usize = 0;
        assert(routes(out@) =~= routes(self.pinned@).take(0));
        while i < self.pinned.len()
            invariant
                i <= self.pinned.len(),
                routes(out@) == routes(self.pinned@).take(i as int),
            decreases self.pinned.len() - i,
        {
            let c = self.pinned[i].copy();
            let ghost pre = routes(out@);
            let ghost v = c@;
            out.push(c);
            assert(routes(out@) =~= pre.push(v));
            assert(routes(self.pinned@).take(i + 1) =~= routes(self.pinned@).take(i as int).push(
                v,
            ));
            i = i + 1;
        }
        assert(routes(self.pinned@).take(i as int) =~= routes(self.pinned@));
        out
    }
}

// ----------------------------------------------------------------- request
/// A request.
pub struct ImageRequest {
    pub prompt: String,
    /// An input image, as a path or an address.
    pub image: Option<String>,
    pub filename: String,
}

/// Whether a file name has an extension.
pub open spec fn has_extension(name: Seq<char>) -> bool {
    match file_name(name) {
        Some(n) => match last_index_of(n, '.') {
            Some(i) => i > 0,
            None => false,
        },
        None => false,
    }
}

fn extension_there(name: &str) -> (r: bool)
    ensures
        r == has_extension(name@),
{
    match file_name_of(name) {
        Some(n) => {
            let v = chars_of(n.as_str());
            match rfind_char(&v, '.') {
                Some(i) => i > 0,
                None => false,
            }
        },
        None => false,
    }
}

/// The name the image is saved under: the one asked for, with an extension, or
/// a fresh one.
pub open spec fn saved_name(asked: Seq<char>, fresh: Seq<char>) -> Seq<char> {
    let name = trimmed(asked);
    if name.len() == 0 {
        fresh + ".png"@
    } else if has_extension(name) {
        name
    } else {
        name + ".png"@
    }
}

/// Reads a request; `fresh` is a name not used before.
pub fn read_request(input: &Json, fresh: &str) -> (r: Result<ImageRequest, ToolResult>)
    ensures
        match r {
            Ok(q) => {
                &&& param(*input, "prompt"@).len() > 0
                &&& q.prompt@ == param(*input, "prompt"@)
                &&& oview(q.image) == if param(*input, "image"@).len() > 0 {
                    Some(param(*input, "image"@))
                } else {
                    None
                }
                &&& q.filename@ == saved_name(param(*input, "filename"@), fresh@)
            },
            Err(e) => param(*input, "prompt"@).len() == 0 && e@ == Reply::Error(
                "Missing required parameter: prompt"@,
            ),
        },
{
    let prompt = param_of(input, "prompt");
    if prompt.as_str().is_empty() {
        return Err(ToolResult::error("Missing required parameter: prompt".to_owned()));
    }
    let image = param_of(input, "image");
    let asked = param_of(input, "filename");
    let name = trim(asked.as_str());
    let filename = if name.is_empty() {
        cat2(fresh, ".png")
    } else if extension_there(name) {
        name.to_owned()
    } else {
        cat2(name, ".png")
    };
    Ok(
        ImageRequest {
            prompt,
            image: if image.as_str().is_empty() {
                None
            } else {
                Some(image)
            },
            filename,
        },
    )
}

/// The routes that take an input image.
pub open spec fn image_routes(v: Seq<RouteV>) -> Seq<RouteV>
    decreases v.len(),
{
    if v.len() == 0 {
        v
    } else if v.last() is Gemini {
        image_routes(v.drop_last()).push(v.last())
    } else {
        image_routes(v.drop_last())
    }
}

/// The answer where no route takes an input image.
pub const NO_IMAGE_ROUTE: &'static str = "No Gemini-backend candidate is configured, and img2img input images require the Gemini backend. Either set up Gemini (`/onboard:image gemini <key>`) or retry without the `image` parameter.";

/// The routes to try, in order, or the answer where there are none.
pub fn eligible(candidates: Vec<GenerationCandidate>, with_image: bool) -> (r: Result<
    Vec<GenerationCandidate>,
    ToolResult,
>)
    ensures
        match r {
            Ok(v) => {
                &&& v@.len() > 0
                &&& routes(v@) == if with_image {
                    image_routes(routes(candidates@))
                } else {
                    routes(candidates@)
                }
            },
            Err(e) => if candidates@.len() == 0 {
                e@ == Reply::Error(GENERATION_SETUP_HINT@)
            } else {
                with_image && image_routes(routes(candidates@)).len() == 0 && e@ == Reply::Error(
                    NO_IMAGE_ROUTE@,
                )
            },
        },
{
    if candidates.len() == 0 {
        return Err(ToolResult::error(GENERATION_SETUP_HINT.to_owned()));
    }
    if !with_image {
        return Ok(candidates);
    }
    let ghost all = routes(candidates@);
    let mut out: Vec<GenerationCandidate> = Vec::new();
    let mut i: usize = 0;
    assert(all.take(0) =~= Seq::empty());
    assert(routes(out@) =~= Seq::empty());
    while i < candidates.len()
        invariant
            i <= candidates.len(),
            all == routes(candidates@),
            routes(out@) == image_routes(all.take(i as int)),
        decreases candidates.len() - i,
    {
        assert(all.take(i + 1).drop_last() =~= all.take(i as int));
        assert(all.take(i + 1).last() == candidates@[i as int]@);
        let ghost pre = routes(out@);
        if candidates[i].supports_image_input() {
            let c = candidates[i].copy();
            let ghost v = c@;
            out.push(c);
            assert(routes(out@) =~= pre.push(v));
        }
        i = i + 1;
    }
    assert(all.take(i as int) =~= all);
    assert(routes(out@).len() == out.len());
    if out.len() == 0 {
        return Err(ToolResult::error(NO_IMAGE_ROUTE.to_owned()));
    }
    Ok(out)
}

/// What an attempt on one route gave.
pub enum Attempt {
    Answer(ToolResult),
    Error(String),
}

/// Why an attempt failed; `None` where it succeeded.
pub open spec fn attempt_failure(a: Attempt) -> Option<Seq<char>> {
    match a {
        Attempt::Answer(r) => match r@ {
            Reply::Success(_) => None,
            Reply::Error(e) => Some(e),
        },
        Attempt::Error(e) => Some(e@),
    }
}

/// A failed attempt in the report.
pub open spec fn failure_text(route: RouteV, why: Seq<char>) -> Seq<char> {
    route_kind(route) + "("@ + route_model(route) + "): "@ + why
}

/// Takes an attempt in: a success is the answer, a failure is noted, and the
/// next route is tried.
pub fn after_attempt(
    candidate: &GenerationCandidate,
    attempt: Attempt,
    failures: &mut Vec<String>,
) -> (r: Option<ToolResult>)
    ensures
        match attempt_failure(attempt) {
            None => r is Some && attempt is Answer && r->0@ == attempt->Answer_0@
                && final(failures)@ == old(failures)@,
            Some(why) => r is None && views(final(failures)@) == views(old(failures)@).push(
                failure_text(candidate@, why),
            ),
        },
{
    let why = match attempt {
        Attempt::Answer(r) => {
            if r.success {
                return Some(r);
            }
            r.text
        },
        Attempt::Error(e) => e,
    };
    let ghost pre = views(failures@);
    let line = cat5(
        candidate.backend_kind(),
        "(",
        candidate.model(),
        "): ",
        why.as_str(),
    );
    let ghost l = line@;
    failures.push(line);
    assert(views(failures@) =~= pre.push(l));
    None
}

/// The answer where every route failed.
pub fn all_failed(tried: usize, failures: &Vec<String>) -> (r: ToolResult)
    ensures
        r@ == Reply::Error(
            "All "@ + decimal(tried as nat) + " image generation candidates failed — "@ + join(
                views(failures@),
                " | "@,
            ),
        ),
{
    ToolResult::error(
        cat4(
            "All ",
            dec_usize(tried).as_str(),
            " image generation candidates failed — ",
            join_strs(failures, " | ").as_str(),
        ),
    )
}

// ------------------------------------------------------------------ Gemini
/// The address of a model on Google's service.
pub fn gemini_url(model: &str) -> (r: String)
    ensures
        r@ == GEMINI_BASE_URL@ + "/models/"@ + model@ + ":generateContent"@,
{
    cat4(GEMINI_BASE_URL, "/models/", model, ":generateContent")
}

/// An input image as its type and its base64 text.
pub struct InlineImage {
    pub mime: String,
    pub data: String,
}

/// An input image as a part of a request.
pub open spec fn inline_part(i: InlineImage) -> Seq<char> {
    "{\"inlineData\":{\"data\":"@ + literal(i.data@) + ",\"mimeType\":"@ + literal(i.mime@) + "}}"@
}

/// The parts of a request: the input image first, then the prompt.
pub open spec fn gemini_parts(prompt: Seq<char>, image: Option<InlineImage>) -> Seq<char> {
    let said = "{\"text\":"@ + literal(prompt) + "}"@;
    match image {
        Some(i) => inline_part(i) + ","@ + said,
        None => said,
    }
}

/// The body of a request.
pub open spec fn gemini_request(prompt: Seq<char>, image: Option<InlineImage>) -> Seq<char> {
    "{\"contents\":[{\"parts\":["@ + gemini_parts(prompt, image)
        + "]}],\"generationConfig\":{\"responseModalities\":[\"TEXT\",\"IMAGE\"]}}"@
}

/// The body of a request.
pub fn gemini_body(prompt: &str, image: &Option<InlineImage>) -> (r: String)
    ensures
        r@ == gemini_request(prompt@, *image),
{
    let said = cat3("{\"text\":", to_literal(prompt).as_str(), "}");
    let parts = match image {
        Some(i) => {
            let part = cat5(
                "{\"inlineData\":{\"data\":",
                to_literal(i.data.as_str()).as_str(),
                ",\"mimeType\":",
                to_literal(i.mime.as_str()).as_str(),
                "}}",
            );
            cat3(part.as_str(), ",", said.as_str())
        },
        None => said,
    };
    cat3(
        "{\"contents\":[{\"parts\":[",
        parts.as_str(),
        "]}],\"generationConfig\":{\"responseModalities\":[\"TEXT\",\"IMAGE\"]}}",
    )
}

/// The items of an array member; none where there is no array.
pub open spec fn items(j: Option<Json>) -> Seq<Json> {
    match j {
        Some(Json::Array(v)) => v@,
        _ => Seq::empty(),
    }
}

/// A member of a member.
pub open spec fn member2(j: Json, a: Seq<char>, b: Seq<char>) -> Option<Json> {
    match member(j, a) {
        Some(v) => member(v, b),
        None => None,
    }
}

/// Reads parts up to the first image: its data, and the text said so far.
pub open spec fn read_parts(parts: Seq<Json>, said: Seq<char>) -> (Option<Seq<char>>, Seq<char>)
    decreases parts.len(),
{
    if parts.len() == 0 {
        (None, said)
    } else {
        let now = match text(member(parts[0], "text"@)) {
            Some(t) => said + t,
            None => said,
        };
        match text(member2(parts[0], "inlineData"@, "data"@)) {
            Some(d) => (Some(d), now),
            None => read_parts(parts.drop_first(), now),
        }
    }
}

/// Reads candidates up to the first image.
pub open spec fn read_candidates(cs: Seq<Json>, said: Seq<char>) -> (Option<Seq<char>>, Seq<char>)
    decreases cs.len(),
{
    if cs.len() == 0 {
        (None, said)
    } else {
        let (data, now) = read_parts(items(member2(cs[0], "content"@, "parts"@)), said);
        if data is Some {
            (data, now)
        } else {
            read_candidates(cs.drop_first(), now)
        }
    }
}

fn get2<'a>(j: &'a Json, a: &str, b: &str) -> (r: Option<&'a Json>)
    ensures
        crate::json::deref_json(r) == member2(*j, a@, b@),
{
    match j.get(a) {
        Some(v) => v.get(b),
        None => None,
    }
}

fn scan_parts(parts: &Vec<Json>, said: &mut String) -> (r: Option<String>)
    ensures
        (oview(r), final(said)@) == read_parts(parts@, old(said)@),
{
    let ghost start = said@;
    let mut i: usize = 0;
    assert(parts@.skip(0) =~= parts@);
    while i < parts.len()
        invariant
            i <= parts.len(),
            start == old(said)@,
            read_parts(parts@, start) == read_parts(parts@.skip(i as int), said@),
        decreases parts.len() - i,
    {
        assert(parts@.skip(i as int)[0] == parts@[i as int]);
        assert(parts@.skip(i as int).drop_first() =~= parts@.skip(i + 1));
        if let Some(v) = parts[i].get("text") {
            if let Some(t) = v.as_str() {
                said.append(t);
            }
        }
        if let Some(v) = get2(&parts[i], "inlineData", "data") {
            if let Some(d) = v.as_str() {
                return Some(d.to_owned());
            }
        }
        i = i + 1;
    }
    None
}

fn scan_candidates(cs: &Vec<Json>, said: &mut String) -> (r: Option<String>)
    ensures
        (oview(r), final(said)@) == read_candidates(cs@, old(said)@),
{
    let ghost start = said@;
    let mut i: usize = 0;
    assert(cs@.skip(0) =~= cs@);
    while i < cs.len()
        invariant
            i <= cs.len(),
            start == old(said)@,
            read_candidates(cs@, start) == read_candidates(cs@.skip(i as int), said@),
        decreases cs.len() - i,
    {
        assert(cs@.skip(i as int)[0] == cs@[i as int]);
        assert(cs@.skip(i as int).drop_first() =~= cs@.skip(i + 1));
        if let Some(Json::Array(parts)) = get2(&cs[i], "content", "parts") {
            if let Some(d) = scan_parts(parts, said) {
                return Some(d);
            }
        }
        i = i + 1;
    }
    None
}

/// What to do with a reply.
pub enum ImageStep {
    /// Decode the data, write the image, and answer with [`saved_answer`].
    Save { data: String, said: String },
    /// Fetch the image from the address, write it, and answer with
    /// [`saved_answer`].
    Fetch { url: String },
    Done(ToolResult),
}

/// A step, as values.
pub enum ImageStepV {
    Save { data: Seq<char>, said: Seq<char> },
    Fetch { url: Seq<char> },
    Done(Reply),
}

impl View for ImageStep {
    type V = ImageStepV;

    open spec fn view(&self) -> ImageStepV {
        match self {
            ImageStep::Save { data, said } => ImageStepV::Save { data: data@, said: said@ },
            ImageStep::Fetch { url } => ImageStepV::Fetch { url: url@ },
            ImageStep::Done(r) => ImageStepV::Done(r@),
        }
    }
}

/// What a reply of Google's service means.
pub open spec fn gemini_step(json: Json) -> ImageStepV {
    let (data, said) = read_candidates(items(member(json, "candidates"@)), Seq::empty());
    match data {
        Some(d) => ImageStepV::Save { data: d, said },
        None => if said.len() > 0 {
            ImageStepV::Done(Reply::Success("No image generated. Gemini response: "@ + said))
        } else {
            ImageStepV::Done(Reply::Error("No image data found in Gemini response"@))
        },
    }
}

/// What a reply of Google's service means.
pub fn execute_gemini(json: &Json) -> (r: ImageStep)
    ensures
        r@ == gemini_step(*json),
{
    let mut said = String::new();
    let data = match json.get("candidates") {
        Some(Json::Array(cs)) => scan_candidates(cs, &mut said),
        _ => None,
    };
    match data {
        Some(data) => ImageStep::Save { data, said },
        None => if !said.as_str().is_empty() {
            ImageStep::Done(
                ToolResult::success(
                    cat2("No image generated. Gemini response: ", said.as_str()),
                ),
            )
        } else {
            ImageStep::Done(
                ToolResult::error("No image data found in Gemini response".to_owned()),
            )
        },
    }
}

/// The answer where Google's service refused.
pub fn gemini_refused(status: u16, body: &str) -> (r: ToolResult)
    ensures
        r@ == Reply::Error("Gemini API error "@ + decimal(status as nat) + ": "@ + body@),
{
    ToolResult::error(
        cat4("Gemini API error ", dec_u64(status as u64).as_str(), ": ", body),
    )
}

// ------------------------------------------------------------------ OpenAI
/// The address of an OpenAI-compatible service.
pub fn openai_url(base_url: &str) -> (r: String)
    ensures
        r@ == trim_end_of_char(base_url@, '/') + "/images/generations"@,
{
    cat2(strip_trailing(base_url, '/'), "/images/generations")
}

/// The body of a request.
pub open spec fn openai_request(model: Seq<char>, prompt: Seq<char>) -> Seq<char> {
    "{\"model\":"@ + literal(model) + ",\"n\":1,\"prompt\":"@ + literal(prompt)
        + ",\"response_format\":\"b64_json\"}"@
}

/// The body of a request.
pub fn openai_body(model: &str, prompt: &str) -> (r: String)
    ensures
        r@ == openai_request(model@, prompt@),
{
    cat5(
        "{\"model\":",
        to_literal(model).as_str(),
        ",\"n\":1,\"prompt\":",
        to_literal(prompt).as_str(),
        ",\"response_format\":\"b64_json\"}",
    )
}

/// The answer where an input image reaches a service that takes none.
pub const IMAGE_NOT_SUPPORTED: &'static str = "The active image generation backend (OpenAI-compatible) does not support input images. img2img editing requires the Gemini backend. Either switch the generation provider to Gemini, or retry without the `image` parameter.";

/// What a reply of an OpenAI-compatible service means.
pub open spec fn openai_step(json: Json) -> ImageStepV {
    let data = items(member(json, "data"@));
    let b64 = if data.len() > 0 {
        text(member(data[0], "b64_json"@))
    } else {
        None
    };
    let url = if data.len() > 0 {
        text(member(data[0], "url"@))
    } else {
        None
    };
    match b64 {
        Some(d) => ImageStepV::Save { data: d, said: Seq::empty() },
        None => match url {
            Some(u) => ImageStepV::Fetch { url: u },
            None => ImageStepV::Done(
                Reply::Error("No image data found in OpenAI-images response: "@ + compact(json)),
            ),
        },
    }
}

/// What a reply of an OpenAI-compatible service means.
pub fn execute_openai(json: &Json) -> (r: ImageStep)
    ensures
        r@ == openai_step(*json),
{
    if let Some(Json::Array(data)) = json.get("data") {
        if data.len() > 0 {
            if let Some(v) = data[0].get("b64_json") {
                if let Some(d) = v.as_str() {
                    return ImageStep::Save { data: d.to_owned(), said: String::new() };
                }
            }
            if let Some(v) = data[0].get("url") {
                if let Some(u) = v.as_str() {
                    return ImageStep::Fetch { url: u.to_owned() };
                }
            }
        }
    }
    ImageStep::Done(
        ToolResult::error(
            cat2(
                "No image data found in OpenAI-images response: ",
                to_compact(json).as_str(),
            ),
        ),
    )
}

/// The answer where an OpenAI-compatible service refused.
pub fn openai_refused(status: u16, body: &str) -> (r: ToolResult)
    ensures
        r@ == Reply::Error("OpenAI images API error "@ + decimal(status as nat) + ": "@ + body@),
{
    ToolResult::error(
        cat4("OpenAI images API error ", dec_u64(status as u64).as_str(), ": ", body),
    )
}

// ------------------------------------------------------------ input, output
/// Whether an input image is an address rather than a path.
pub fn is_remote(src: &str) -> (r: bool)
    ensures
        r == (has_prefix(src@, "http://"@) || has_prefix(src@, "https://"@)),
{
    starts_with(src, "http://") || starts_with(src, "https://")
}

/// The type of a fetched image: its content type without parameters.
pub fn fetched_mime(content_type: &Option<String>) -> (r: String)
    ensures
        r@ == match *content_type {
            Some(t) => before(t@, ';'),
            None => "image/jpeg"@,
        },
{
    match content_type {
        Some(t) => before_char(t.as_str(), ';').to_owned(),
        None => "image/jpeg".to_owned(),
    }
}

/// Whether a character belongs to base64 text.
pub open spec fn is_base64(c: char) -> bool {
    is_ascii_alnum(c) || c == '+' || c == '/' || c == '='
}

/// The base64 text in `s`, without anything else.
pub open spec fn base64_only(s: Seq<char>) -> Seq<char>
    decreases s.len(),
{
    if s.len() == 0 {
        s
    } else if is_base64(s.last()) {
        base64_only(s.drop_last()).push(s.last())
    } else {
        base64_only(s.drop_last())
    }
}

fn keep_base64(s: &str) -> (r: String)
    ensures
        r@ == base64_only(s@),
{
    let v = chars_of(s);
    let mut out = String::new();
    let mut i: usize = 0;
    assert(v@.take(0) =~= Seq::empty());
    while i < v.len()
        invariant
            i <= v.len(),
            out@ == base64_only(v@.take(i as int)),
        decreases v.len() - i,
    {
        assert(v@.take(i + 1).drop_last() =~= v@.take(i as int));
        let c = v[i];
        if char_is_ascii_alnum(c) || c == '+' || c == '/' || c == '=' {
            out.push(c);
        }
        i = i + 1;
    }
    assert(v@.take(i as int) =~= v@);
    out
}

/// The bytes of a base64 text, or why it is none, as the `base64` crate
/// decodes it.
pub uninterp spec fn decoded(s: Seq<char>) -> Result<Seq<u8>, Seq<char>>;

/// `decode` of the `base64` crate's standard engine. The result depends on the
/// text alone and is named.
#[verifier::external_body]
pub(crate) fn decode_standard(s: &str) -> (r: Result<Vec<u8>, String>)
    ensures
        match r {
            Ok(b) => decoded(s@) == Ok::<Seq<u8>, Seq<char>>(b@),
            Err(e) => decoded(s@) == Err::<Seq<u8>, Seq<char>>(e@),
        },
{
    base64::Engine::decode(&base64::engine::general_purpose::STANDARD, s).map_err(|e| e.to_string())
}

/// The bytes of an image, or the answer where it cannot be decoded.
pub fn decode_image(data: &str) -> (r: Result<Vec<u8>, ToolResult>)
    ensures
        match decoded(base64_only(data@)) {
            Ok(b) => r is Ok && r->Ok_0@ == b,
            Err(e) => r is Err && r->Err_0@ == Reply::Error(
                "Failed to decode image data: "@ + e,
            ),
        },
{
    image_bytes(decode_standard(keep_base64(data).as_str()))
}

/// The bytes of an image, given what decoding gave.
pub fn image_bytes(outcome: Result<Vec<u8>, String>) -> (r: Result<Vec<u8>, ToolResult>)
    ensures
        match outcome {
            Ok(b) => r is Ok && r->Ok_0@ == b@,
            Err(e) => r is Err && r->Err_0@ == Reply::Error(
                "Failed to decode image data: "@ + e@,
            ),
        },
{
    match outcome {
        Ok(b) => Ok(b),
        Err(e) => Err(ToolResult::error(cat2("Failed to decode image data: ", e.as_str()))),
    }
}

/// The answer once an image is saved, with what the model said beside it.
pub open spec fn saved_text(path: Seq<char>, said: Seq<char>) -> Seq<char> {
    let note = "Generated image saved to: "@ + path + "\nUse <<IMG:"@ + path
        + ">> to reference it."@;
    if is_blank(said) {
        note
    } else {
        trimmed(said) + "\n\n"@ + note
    }
}

/// The answer once an image is saved.
pub fn saved_answer(path: &str, said: &str) -> (r: ToolResult)
    ensures
        r@ == Reply::Success(saved_text(path@, said@)),
{
    let note = cat5(
        "Generated image saved to: ",
        path,
        "\nUse <<IMG:",
        path,
        ">> to reference it.",
    );
    if blank(said) {
        ToolResult::success(note)
    } else {
        ToolResult::success(cat3(trim(said), "\n\n", note.as_str()))
    }
}

// -------------------------------------------------------------------- laws
/// An input image never reaches a route that takes none, and the routes that
/// remain keep their order.
pub proof fn law_images_go_to_gemini(v: Seq<RouteV>)
    ensures
        forall|i: int| 0 <= i < image_routes(v).len() ==> #[trigger] image_routes(v)[i] is Gemini,
        forall|i: int|
            0 <= i < v.len() && #[trigger] v[i] is Gemini ==> image_routes(v).contains(v[i]),
        image_routes(v) == v.filter(|r: RouteV| r is Gemini),
    decreases v.len(),
{
    reveal(Seq::filter);
    if v.len() > 0 {
        let t = v.drop_last();
        law_images_go_to_gemini(t);
        let w = image_routes(v);
        let wt = image_routes(t);
        assert forall|i: int| 0 <= i < w.len() implies #[trigger] w[i] is Gemini by {
            if i < wt.len() {
                assert(wt[i] is Gemini);
            }
        }
        assert forall|i: int| 0 <= i < v.len() && #[trigger] v[i] is Gemini implies w.contains(
            v[i],
        ) by {
            if i < t.len() {
                assert(t[i] is Gemini);
                let k = choose|k: int| 0 <= k < wt.len() && wt[k] == v[i];
                assert(w[k] == v[i]);
            } else {
                assert(w[w.len() - 1] == v[i]);
            }
        }
    }
}

proof fn lemma_distinct(v: Seq<RouteV>)
    ensures
        distinct(v).no_duplicates(),
        forall|r: RouteV| distinct(v).contains(r) <==> #[trigger] v.contains(r),
        v.no_duplicates() ==> distinct(v) == v,
    decreases v.len(),
{
    if v.len() > 0 {
        let t = v.drop_last();
        lemma_distinct(t);
        lemma_once_more(distinct(t), v.last());
        assert forall|r: RouteV| distinct(v).contains(r) <==> #[trigger] v.contains(r) by {
            assert(once_more(distinct(t), v.last()).contains(r) <==> distinct(t).contains(r) || r
                == v.last());
            if v.contains(r) && r != v.last() {
                let i = choose|i: int| 0 <= i < v.len() && v[i] == r;
                assert(t[i] == r);
            }
            if t.contains(r) {
                let i = choose|i: int| 0 <= i < t.len() && t[i] == r;
                assert(v[i] == r);
            }
            assert(v[v.len() - 1] == v.last());
        }
        if v.no_duplicates() {
            assert forall|i: int, j: int|
                0 <= i < t.len() && 0 <= j < t.len() && i != j implies #[trigger] t[i]
                != #[trigger] t[j] by {
                assert(v[i] != v[j]);
            }
            assert(!t.contains(v.last())) by {
                if t.contains(v.last()) {
                    let i = choose|i: int| 0 <= i < t.len() && t[i] == v.last();
                    assert(v[i] != v[v.len() - 1]);
                }
            }
            assert(t.push(v.last()) =~= v);
        }
    }
}

proof fn lemma_once_more(v: Seq<RouteV>, r: RouteV)
    requires
        v.no_duplicates(),
    ensures
        once_more(v, r).no_duplicates(),
        forall|x: RouteV| #[trigger]
            once_more(v, r).contains(x) <==> v.contains(x) || x == r,
        once_more(v, r).take(v.len() as int) == v,
        v.len() <= once_more(v, r).len() <= v.len() + 1,
{
    let w = once_more(v, r);
    assert(w.take(v.len() as int) =~= v);
    if !v.contains(r) {
        assert(w[v.len() as int] == r);
        assert forall|x: RouteV| #[trigger] w.contains(x) <==> v.contains(x) || x == r by {
            if v.contains(x) {
                let i = choose|i: int| 0 <= i < v.len() && v[i] == x;
                assert(w[i] == x);
            }
            if w.contains(x) && x != r {
                let i = choose|i: int| 0 <= i < w.len() && w[i] == x;
                assert(v[i] == x);
            }
        }
    }
}

/// No route is tried twice. Every provider's route is tried, in the order
/// given, and the global route, whose switch vetoes none of them, comes after
/// them all unless it is one of them.
pub proof fn law_global_route_is_last(providers: Seq<ProviderRoute>, g: GlobalGeneration)
    ensures
        ({
            let own = distinct(provider_routes(providers));
            let all = planned(providers, g);
            &&& all.no_duplicates()
            &&& own.len() <= all.len() <= own.len() + 1
            &&& all.take(own.len() as int) == own
            &&& global_route(g) is Some ==> all.contains(global_route(g)->0)
            &&& all.len() > own.len() ==> global_route(g) == Some(all.last())
        }),
        forall|i: int|
            0 <= i < providers.len() ==> planned(providers, g).contains(
                provider_route(#[trigger] providers[i]),
            ),
        provider_routes(providers).no_duplicates() ==> distinct(provider_routes(providers))
            == provider_routes(providers),
{
    let given = provider_routes(providers);
    let own = distinct(given);
    lemma_distinct(given);
    let all = planned(providers, g);
    assert(own.take(own.len() as int) =~= own);
    if let Some(r) = global_route(g) {
        lemma_once_more(own, r);
    }
    assert forall|i: int| 0 <= i < providers.len() implies all.contains(
        provider_route(#[trigger] providers[i]),
    ) by {
        assert(given[i] == provider_route(providers[i]));
        assert(given.contains(given[i]));
        assert(own.contains(given[i]));
    }
}

/// The address of a provider decides the protocol; key and model are its own.
/// The global route needs its switch and a key.
pub proof fn law_routes_are_configured(p: ProviderRoute, g: GlobalGeneration)
    ensures
        tells(p.base_url@, "generativelanguage.googleapis.com"@) ==> provider_route(p) == (
        RouteV::Gemini { api_key: p.api_key@, model: p.model@ }),
        !tells(p.base_url@, "generativelanguage.googleapis.com"@) ==> provider_route(p) == (
        RouteV::OpenAi { api_key: p.api_key@, base_url: p.base_url@, model: p.model@ }),
        route_model(provider_route(p)) == p.model@,
        g.enabled && g.api_key is Some ==> global_route(g) == Some(
            RouteV::Gemini { api_key: g.api_key->0@, model: g.model@ },
        ),
        !g.enabled || g.api_key is None ==> global_route(g) is None,
        GEMINI_BASE_URL@ == "https://generativelanguage.googleapis.com/v1beta"@,
{
    law_search_finds(p.base_url@, GEMINI_HOST_MARKER@);
}

/// The first route of the first provider is the first tried.
pub proof fn law_first_provider_is_tried_first(
    providers: Seq<ProviderRoute>,
    g: GlobalGeneration,
)
    requires
        providers.len() > 0,
    ensures
        planned(providers, g).len() > 0,
        planned(providers, g)[0] == provider_route(providers[0]),
{
    let given = provider_routes(providers);
    lemma_first_stays(given);
    if let Some(r) = global_route(g) {
        assert(once_more(distinct(given), r)[0] == distinct(given)[0]);
    }
}

proof fn lemma_first_stays(v: Seq<RouteV>)
    requires
        v.len() > 0,
    ensures
        distinct(v).len() > 0,
        distinct(v)[0] == v[0],
    decreases v.len(),
{
    if v.len() > 1 {
        lemma_first_stays(v.drop_last());
    } else {
        assert(distinct(v.drop_last()) =~= Seq::empty());
    }
}

/// An image is saved under the name asked for, which gets an extension where
/// it has none; without a name, under a fresh one.
pub proof fn law_saved_under_the_name_asked_for(asked: Seq<char>, fresh: Seq<char>)
    ensures
        trimmed(asked).len() == 0 ==> saved_name(asked, fresh) == fresh + ".png"@,
        trimmed(asked).len() > 0 && has_extension(trimmed(asked)) ==> saved_name(asked, fresh)
            == trimmed(asked),
        trimmed(asked).len() > 0 && !has_extension(trimmed(asked)) ==> saved_name(asked, fresh)
            == trimmed(asked) + ".png"@,
        file_name(asked) is Some && !file_name(asked)->0.contains('.') ==> !has_extension(asked),
        file_name(asked) is None ==> !has_extension(asked),
        file_name(asked) is Some && (exists|i: int|
            0 < i < file_name(asked)->0.len() && #[trigger] file_name(asked)->0[i] == '.')
            ==> has_extension(asked),
{
    if let Some(n) = file_name(asked) {
        lemma_last_index_of(n, '.');
    }
}

/// A failed attempt is reported with its route and its reason; a success is
/// none.
pub proof fn law_failures_are_told(route: RouteV, why: Seq<char>, r: ToolResult, e: String)
    ensures
        tells(failure_text(route, why), why),
        tells(failure_text(route, why), route_model(route)),
        route is Gemini ==> route_kind(route) == "gemini"@,
        route is OpenAi ==> route_kind(route) == "openai"@,
        r.success ==> attempt_failure(Attempt::Answer(r)) is None,
        !r.success ==> attempt_failure(Attempt::Answer(r)) == Some(r.text@),
        attempt_failure(Attempt::Error(e)) == Some(e@),
{
    let t = failure_text(route, why);
    let none = Seq::<char>::empty();
    let head = route_kind(route) + "("@ + route_model(route) + "): "@;
    assert(t =~= head + why + none);
    lemma_tells(t, head, why, none);
    assert(t =~= (route_kind(route) + "("@) + route_model(route) + ("): "@ + why));
    lemma_tells(t, route_kind(route) + "("@, route_model(route), "): "@ + why);
}

/// A request holds the prompt, quoted, and the input image before it; one
/// without an image holds none.
pub proof fn law_requests_hold_the_prompt(
    prompt: Seq<char>,
    image: InlineImage,
    model: Seq<char>,
)
    ensures
        tells(gemini_request(prompt, None), "[{\"text\":"@ + literal(prompt) + "}]"@),
        tells(
            gemini_request(prompt, Some(image)),
            "{\"inlineData\":{\"data\":"@ + literal(image.data@) + ",\"mimeType\":"@ + literal(
                image.mime@,
            ) + "}}"@ + ","@ + ("{\"text\":"@ + literal(prompt) + "}"@),
        ),
        openai_request(model, prompt) == "{\"model\":"@ + literal(model) + ",\"n\":1,\"prompt\":"@
            + literal(prompt) + ",\"response_format\":\"b64_json\"}"@,
{
    reveal_strlit("{\"contents\":[{\"parts\":[");
    reveal_strlit("]}],\"generationConfig\":{\"responseModalities\":[\"TEXT\",\"IMAGE\"]}}");
    reveal_strlit("[{\"text\":");
    reveal_strlit("{\"text\":");
    reveal_strlit("}]");
    reveal_strlit("}");
    let a = "{\"contents\":[{\"parts\":["@;
    let z = "]}],\"generationConfig\":{\"responseModalities\":[\"TEXT\",\"IMAGE\"]}}"@;
    let t = gemini_request(prompt, None);
    let p = "[{\"text\":"@ + literal(prompt) + "}]"@;
    assert(t =~= a.take(a.len() - 1) + p + z.skip(1));
    lemma_tells(t, a.take(a.len() - 1), p, z.skip(1));
    let said = "{\"text\":"@ + literal(prompt) + "}"@;
    let q = inline_part(image) + ","@ + said;
    lemma_tells(gemini_request(prompt, Some(image)), a, q, z);
}

proof fn lemma_read_parts_text(parts: Seq<Json>, said: Seq<char>, i: int)
    requires
        0 <= i < parts.len(),
        text(member2(parts[i], "inlineData"@, "data"@)) is Some,
        forall|j: int|
            0 <= j < i ==> text(member2(#[trigger] parts[j], "inlineData"@, "data"@)) is None,
    ensures
        read_parts(parts, said).0 == text(member2(parts[i], "inlineData"@, "data"@)),
    decreases parts.len(),
{
    if i > 0 {
        let rest = parts.drop_first();
        assert(text(member2(parts[0], "inlineData"@, "data"@)) is None);
        let now = match text(member(parts[0], "text"@)) {
            Some(t) => said + t,
            None => said,
        };
        assert forall|j: int| 0 <= j < i - 1 implies text(
            member2(#[trigger] rest[j], "inlineData"@, "data"@),
        ) is None by {
            assert(text(member2(parts[j + 1], "inlineData"@, "data"@)) is None);
        }
        lemma_read_parts_text(rest, now, i - 1);
    }
}

/// The image of a reply is the data of its first part that has any; what the
/// parts before it say is kept, in order.
pub proof fn law_first_image_is_taken(parts: Seq<Json>, said: Seq<char>, i: int)
    ensures
        0 <= i < parts.len() && text(member2(parts[i], "inlineData"@, "data"@)) is Some && (forall|
            j: int,
        |
            0 <= j < i ==> text(member2(#[trigger] parts[j], "inlineData"@, "data"@)) is None)
            ==> read_parts(parts, said).0 == text(member2(parts[i], "inlineData"@, "data"@)),
        parts.len() > 0 && text(member(parts[0], "text"@)) is Some && text(
            member2(parts[0], "inlineData"@, "data"@),
        ) is None ==> read_parts(parts, said) == read_parts(
            parts.drop_first(),
            said + text(member(parts[0], "text"@))->0,
        ),
        read_parts(Seq::empty(), said) == (None::<Seq<char>>, said),
{
    if 0 <= i < parts.len() && text(member2(parts[i], "inlineData"@, "data"@)) is Some && (forall|
        j: int,
    |
        0 <= j < i ==> text(member2(#[trigger] parts[j], "inlineData"@, "data"@)) is None) {
        lemma_read_parts_text(parts, said, i);
    }
}

/// A reply with an image is saved, one with words alone is told, and one with
/// neither is an error. The first candidate with an image counts.
pub proof fn law_replies_are_read(json: Json, cs: Vec<Json>, data: Vec<Json>)
    ensures
        member(json, "candidates"@) == Some(Json::Array(cs)) && cs@.len() > 0 ==> ({
            let (d, said) = read_parts(
                items(member2(cs@[0], "content"@, "parts"@)),
                Seq::empty(),
            );
            d is Some ==> gemini_step(json) == (ImageStepV::Save { data: d->0, said })
        }),
        member(json, "candidates"@) is None ==> gemini_step(json) == ImageStepV::Done(
            Reply::Error("No image data found in Gemini response"@),
        ),
        member(json, "data"@) == Some(Json::Array(data)) && data@.len() > 0 && text(
            member(data@[0], "b64_json"@),
        ) is Some ==> openai_step(json) == (ImageStepV::Save {
            data: text(member(data@[0], "b64_json"@))->0,
            said: Seq::empty(),
        }),
        member(json, "data"@) == Some(Json::Array(data)) && data@.len() > 0 && text(
            member(data@[0], "b64_json"@),
        ) is None && text(member(data@[0], "url"@)) is Some ==> openai_step(json) == (
        ImageStepV::Fetch { url: text(member(data@[0], "url"@))->0 }),
        member(json, "data"@) is None ==> openai_step(json) is Done && openai_step(json)->Done_0
            is Error,
{
}

/// What comes of candidates without an image: the words of all of them.
pub proof fn law_words_are_kept(cs: Seq<Json>, said: Seq<char>)
    ensures
        read_candidates(Seq::empty(), said) == (None::<Seq<char>>, said),
        cs.len() > 0 && read_parts(items(member2(cs[0], "content"@, "parts"@)), said).0 is None
            ==> read_candidates(cs, said) == read_candidates(
            cs.drop_first(),
            read_parts(items(member2(cs[0], "content"@, "parts"@)), said).1,
        ),
        cs.len() > 0 && read_parts(items(member2(cs[0], "content"@, "parts"@)), said).0 is Some
            ==> read_candidates(cs, said) == read_parts(
            items(member2(cs[0], "content"@, "parts"@)),
            said,
        ),
{
}

proof fn lemma_base64_add(a: Seq<char>, b: Seq<char>)
    ensures
        base64_only(a + b) == base64_only(a) + base64_only(b),
    decreases b.len(),
{
    if b.len() == 0 {
        assert(a + b =~= a);
        assert(base64_only(a) + base64_only(b) =~= base64_only(a));
    } else {
        assert((a + b).drop_last() =~= a + b.drop_last());
        lemma_base64_add(a, b.drop_last());
        assert(base64_only(a + b) =~= base64_only(a) + base64_only(b));
    }
}

/// Only what is no base64 is dropped from image data: letters, digits, plus,
/// slash and padding stay, in order.
pub proof fn law_image_data_is_kept(a: Seq<char>, c: char, b: Seq<char>)
    ensures
        base64_only(a.push(c) + b) == if ('0' <= c <= '9') || ('a' <= c <= 'z') || ('A' <= c
            <= 'Z') || c == '+' || c == '/' || c == '=' {
            base64_only(a).push(c) + base64_only(b)
        } else {
            base64_only(a) + base64_only(b)
        },
{
    lemma_base64_add(a.push(c), b);
    assert(a.push(c).drop_last() =~= a);
}

/// The answer tells where the image was saved, how to refer to it, and what
/// the model said beside it.
pub proof fn law_saved_answer_tells_the_path(path: Seq<char>, said: Seq<char>)
    ensures
        tells(saved_text(path, said), "Generated image saved to: "@ + path),
        tells(saved_text(path, said), "<<IMG:"@ + path + ">>"@),
        trimmed(said).len() > 0 ==> saved_text(path, said).take(trimmed(said).len() as int)
            == trimmed(said),
{
    reveal_strlit("\nUse <<IMG:");
    reveal_strlit("<<IMG:");
    reveal_strlit(">> to reference it.");
    reveal_strlit(">>");
    let none = Seq::<char>::empty();
    let u = "\nUse <<IMG:"@;
    let z = ">> to reference it."@;
    let head = "Generated image saved to: "@ + path;
    let note = head + u + path + z;
    let lead = if is_blank(said) {
        none
    } else {
        trimmed(said) + "\n\n"@
    };
    let t = saved_text(path, said);
    assert(note == "Generated image saved to: "@ + path + "\nUse <<IMG:"@ + path
        + ">> to reference it."@);
    assert(t =~= lead + head + (u + path + z));
    lemma_tells(t, lead, head, u + path + z);
    let p = "<<IMG:"@ + path + ">>"@;
    assert(t =~= (lead + head + u.take(5)) + p + z.skip(2));
    lemma_tells(t, lead + head + u.take(5), p, z.skip(2));
    if trimmed(said).len() > 0 {
        assert(t.take(trimmed(said).len() as int) =~= trimmed(said));
    }
}

/// A dot that opens a name begins no extension.
pub proof fn law_hidden_names_have_no_extension(name: Seq<char>)
    requires
        file_name(name) is Some,
        forall|i: int| 0 < i < file_name(name)->0.len() ==> file_name(name)->0[i] != '.',
    ensures
        !has_extension(name),
{
    lemma_last_index_of(file_name(name)->0, '.');
}

} // verus!
