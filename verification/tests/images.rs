use crabs::json::Json;
use crabs::tools::generate_image::{
    after_attempt, all_failed, decode_image, eligible, execute_gemini, execute_openai,
    fetched_mime, gemini_body, gemini_refused, gemini_url, image_bytes, is_remote, openai_body,
    openai_refused, openai_url, read_request, saved_answer, Attempt, GenerateImageTool,
    GlobalGeneration, ImageStep, InlineImage, ProviderRoute, GENERATION_SETUP_HINT,
    NO_IMAGE_ROUTE,
};
use crabs::tools::result::ToolResult;

fn s(t: &str) -> String {
    t.to_string()
}

fn text(t: &str) -> Json {
    Json::Str(s(t))
}

fn obj(members: Vec<(&str, Json)>) -> Json {
    Json::Object(members.into_iter().map(|(k, v)| (s(k), v)).collect())
}

fn route(key: &str, base: &str, model: &str) -> ProviderRoute {
    ProviderRoute { api_key: s(key), base_url: s(base), model: s(model) }
}

fn global(enabled: bool, key: Option<&str>) -> GlobalGeneration {
    GlobalGeneration { enabled, api_key: key.map(s), model: s("gm") }
}

const GOOGLE: &str = "https://generativelanguage.googleapis.com/v1beta";

fn kinds(tool: &[crabs::tools::generate_image::GenerationCandidate]) -> Vec<(String, String)> {
    tool.iter().map(|c| (s(c.backend_kind()), s(c.model()))).collect()
}

#[test]
fn pinned_routes() {
    let t = GenerateImageTool::new(s("k"), s("m"));
    assert_eq!(kinds(&t.pinned), vec![(s("gemini"), s("m"))]);
    assert!(t.pinned[0].supports_image_input());
    let t = GenerateImageTool::with_openai_backend(s("k"), s("https://o"), s("m"));
    assert_eq!(kinds(&t.pinned), vec![(s("openai"), s("m"))]);
    assert!(!t.pinned[0].supports_image_input());
    assert!(GenerateImageTool::dynamic().pinned.is_empty());
}

#[test]
fn global_route_comes_last_and_once() {
    let providers = vec![route("a", "https://o/v1", "x"), route("g", GOOGLE, "gm")];
    let plan = GenerateImageTool::plan_candidates(&providers, &global(true, Some("other")));
    assert_eq!(kinds(&plan), vec![(s("openai"), s("x")), (s("gemini"), s("gm")), (s("gemini"), s("gm"))]);
    let plan = GenerateImageTool::plan_candidates(&providers, &global(true, Some("g")));
    assert_eq!(plan.len(), 2);
    let plan = GenerateImageTool::plan_candidates(&providers, &global(false, Some("other")));
    assert_eq!(plan.len(), 2);
    let plan = GenerateImageTool::plan_candidates(&vec![], &global(true, None));
    assert!(plan.is_empty());
    let twice = vec![route("a", "https://o/v1", "x"), route("g", GOOGLE, "gm"), route("a", "https://o/v1", "x")];
    let plan = GenerateImageTool::plan_candidates(&twice, &global(false, None));
    assert_eq!(kinds(&plan), vec![(s("openai"), s("x")), (s("gemini"), s("gm"))]);
}

#[test]
fn tool_exists_where_a_route_does() {
    assert!(GenerateImageTool::from_config(&vec![], &global(false, Some("k"))).is_none());
    assert!(GenerateImageTool::from_config(&vec![], &global(true, Some("k"))).is_some());
    assert!(GenerateImageTool::from_config(&vec![route("a", "https://o", "x")], &global(false, None)).is_some());
    let pinned = GenerateImageTool::new(s("k"), s("m"));
    assert_eq!(kinds(&pinned.candidates(&vec![route("a", "https://o", "x")], &global(true, Some("k")))), vec![(s("gemini"), s("m"))]);
    assert_eq!(kinds(&GenerateImageTool::dynamic().candidates(&vec![route("a", "https://o", "x")], &global(false, None))), vec![(s("openai"), s("x"))]);
}

#[test]
fn requests_are_read() {
    let r = read_request(&obj(vec![("prompt", text("a crab"))]), "abc").ok().unwrap();
    assert_eq!((r.prompt.as_str(), r.image.is_none(), r.filename.as_str()), ("a crab", true, "abc.png"));
    let named = |n: &str| {
        read_request(&obj(vec![("prompt", text("p")), ("filename", text(n)), ("image", text("/i.png"))]), "f").ok().unwrap()
    };
    assert_eq!(named(" crab ").filename, "crab.png");
    assert_eq!(named("crab.jpg").filename, "crab.jpg");
    assert_eq!(named(".hidden").filename, ".hidden.png");
    assert_eq!(named("  ").filename, "f.png");
    assert_eq!(named("x").image, Some(s("/i.png")));
    assert!(matches!(read_request(&obj(vec![("prompt", text(""))]), "f"), Err(e) if e.text == "Missing required parameter: prompt"));
    assert!(read_request(&Json::Null, "f").is_err());
}

#[test]
fn images_go_to_gemini_only() {
    let mixed = || GenerateImageTool::plan_candidates(
        &vec![route("a", "https://o", "x"), route("g", GOOGLE, "y")], &global(false, None));
    assert_eq!(kinds(&eligible(mixed(), true).ok().unwrap()), vec![(s("gemini"), s("y"))]);
    assert_eq!(eligible(mixed(), false).ok().unwrap().len(), 2);
    let openai = GenerateImageTool::plan_candidates(&vec![route("a", "https://o", "x")], &global(false, None));
    assert!(matches!(eligible(openai, true), Err(e) if e.text == NO_IMAGE_ROUTE));
    assert!(matches!(eligible(vec![], true), Err(e) if e.text == GENERATION_SETUP_HINT));
}

#[test]
fn routes_are_rolled_through() {
    let plan = GenerateImageTool::plan_candidates(
        &vec![route("a", "https://o", "x"), route("g", GOOGLE, "y")], &global(false, None));
    let mut failures = Vec::new();
    assert!(after_attempt(&plan[0], Attempt::Answer(ToolResult::error(s("quota"))), &mut failures).is_none());
    assert!(after_attempt(&plan[1], Attempt::Error(s("dns")), &mut failures).is_none());
    assert_eq!(failures, vec!["openai(x): quota", "gemini(y): dns"]);
    assert_eq!(
        all_failed(2, &failures).text,
        "All 2 image generation candidates failed — openai(x): quota | gemini(y): dns"
    );
    let won = after_attempt(&plan[1], Attempt::Answer(ToolResult::success(s("done"))), &mut failures);
    assert_eq!(won.unwrap().text, "done");
    assert_eq!(failures.len(), 2);
}

#[test]
fn gemini_wire() {
    assert_eq!(gemini_url("m1"), "https://generativelanguage.googleapis.com/v1beta/models/m1:generateContent");
    assert_eq!(
        gemini_body("say \"hi\"", &None),
        "{\"contents\":[{\"parts\":[{\"text\":\"say \\\"hi\\\"\"}]}],\"generationConfig\":{\"responseModalities\":[\"TEXT\",\"IMAGE\"]}}"
    );
    assert_eq!(
        gemini_body("p", &Some(InlineImage { mime: s("image/png"), data: s("AAAA") })),
        "{\"contents\":[{\"parts\":[{\"inlineData\":{\"data\":\"AAAA\",\"mimeType\":\"image/png\"}},{\"text\":\"p\"}]}],\"generationConfig\":{\"responseModalities\":[\"TEXT\",\"IMAGE\"]}}"
    );
    assert_eq!(gemini_refused(429, "slow").text, "Gemini API error 429: slow");
}

fn reply(parts: Vec<Json>) -> Json {
    obj(vec![("candidates", Json::Array(vec![obj(vec![("content", obj(vec![("parts", Json::Array(parts))]))])]))])
}

#[test]
fn gemini_replies() {
    let image = obj(vec![("inlineData", obj(vec![("data", text("AAAA"))]))]);
    let both = reply(vec![obj(vec![("text", text("one "))]), obj(vec![("text", text("two"))]), image, obj(vec![("text", text("late"))])]);
    assert!(matches!(execute_gemini(&both), ImageStep::Save { data, said } if data == "AAAA" && said == "one two"));
    assert!(matches!(execute_gemini(&reply(vec![obj(vec![("text", text("no"))])])),
        ImageStep::Done(r) if r.success && r.text == "No image generated. Gemini response: no"));
    assert!(matches!(execute_gemini(&Json::Null), ImageStep::Done(r) if !r.success && r.text == "No image data found in Gemini response"));
}

#[test]
fn openai_wire() {
    assert_eq!(openai_url("https://o/v1//"), "https://o/v1/images/generations");
    assert_eq!(openai_body("m", "p"), "{\"model\":\"m\",\"n\":1,\"prompt\":\"p\",\"response_format\":\"b64_json\"}");
    assert_eq!(openai_refused(401, "key").text, "OpenAI images API error 401: key");
    let data = |m: Vec<(&str, Json)>| obj(vec![("data", Json::Array(vec![obj(m)]))]);
    assert!(matches!(execute_openai(&data(vec![("b64_json", text("QQ==")), ("url", text("u"))])),
        ImageStep::Save { data, said } if data == "QQ==" && said.is_empty()));
    assert!(matches!(execute_openai(&data(vec![("url", text("https://u"))])), ImageStep::Fetch { url } if url == "https://u"));
    assert!(matches!(execute_openai(&obj(vec![("data", Json::Array(vec![]))])),
        ImageStep::Done(r) if r.text == "No image data found in OpenAI-images response: {\"data\":[]}"));
}

#[test]
fn images_are_decoded() {
    assert_eq!(decode_image("aGVs\nbG8=").ok().unwrap(), b"hello".to_vec());
    assert!(matches!(decode_image("a"), Err(e) if e.text.starts_with("Failed to decode image data: ")));
    assert_eq!(image_bytes(Ok(vec![1, 2])).ok().unwrap(), vec![1, 2]);
    assert!(matches!(image_bytes(Err(s("bad"))), Err(e) if e.text == "Failed to decode image data: bad"));
}

#[test]
fn images_are_saved() {
    assert_eq!(
        saved_answer("/i/a.png", " ").text,
        "Generated image saved to: /i/a.png\nUse <<IMG:/i/a.png>> to reference it."
    );
    assert!(saved_answer("/i/a.png", " here \n").text.starts_with("here\n\nGenerated image"));
    assert!(is_remote("https://x") && is_remote("http://x") && !is_remote("/x"));
    assert_eq!(fetched_mime(&Some(s("image/png; q=1"))), "image/png");
    assert_eq!(fetched_mime(&None), "image/jpeg");
}
