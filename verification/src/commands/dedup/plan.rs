//! Picking the winner of a group, and what follows from the pick.
use crate::client::{thumbnail_reply, CaptionBackend};
use crate::commands::dedup::classify::{
    asset_gps, byte_sizes, all_sized, collect_sizes, find_location, first_location, first_of_size,
    gap_at_most, gps, is_first_largest, is_first_located, largest, lemma_first_largest_unique,
    lemma_first_located_exists, lemma_smallest_at_most_largest, max_size, min_size, smallest, Ratio,
};
use crate::error::Error;
use crate::json::{is_record, json_fault, json_of, read_json, slot, Json, JsonView};
use crate::llm::{image_views, MultiImageVisionLlm};
use crate::models::{Asset, Degrees, DuplicateGroup};
use crate::text::{
    after_prefix, before_suffix, decimal, numeral, opt_text, rest_after, rest_before, strip_leading,
    texts, trim, trim_end, trimmed, trimmed_end, without_leading,
};
use vstd::prelude::*;
use vstd::string::*;

verus! {

/// Token budget of the answer to a pick.
pub const MAX_PICK_TOKENS: u32 = 1024;

pub const PICK_SYSTEM_PROMPT: &'static str =
    "你是一位帮助用户在一组高度相似的照片中挑选\"最值得保留的那一张\"的助手。你的输出会作为脚本的输入，必须严格遵守 JSON 格式，且只输出一个 JSON 对象，不要附加任何额外说明。";

pub const PICK_USER_PROMPT_HEAD: &'static str =
    "下面给你一组照片，它们被 Immich 判定为视觉上几乎相同的重复。请只从以下几个角度比较，挑出**最值得保留**的一张：\n1. 构图（取景、主体位置、画面平衡、有无明显裁切失误或手抖）\n2. 内容（人物表情/姿态是否最自然，主体是否最完整、是否被遮挡）\n3. 生动程度（光线、清晰度、色彩、瞬间感）\n\n4. 人物漂亮程度，偏向美颜风格\n\n比较时请忽略文件名、文件大小、缩略图分辨率差异；只看图像本身。\n\n请输出如下 JSON：\n```\n{\n\"winner_index\": <整数，从 0 开始>,\n\"reason\": \"<不超过 80 字的中文理由>\"\n}\n```\n不要输出 JSON 之外的任何文字。";

// ---- picking by size --------------------------------------------------------

/// The winner by size: the first largest member, where every size is known and
/// `1 - smallest / largest > size_ratio`.
pub open spec fn winner_by_size(assets: Seq<Asset>, size_ratio: Ratio) -> Option<usize> {
    let sizes = byte_sizes(assets);
    if all_sized(assets) && (largest(sizes) - smallest(sizes)) * size_ratio.den > size_ratio.num
        * largest(sizes) {
        Some((choose|k: int| is_first_largest(sizes, k)) as usize)
    } else {
        None
    }
}

/// Picks the largest file where it is more than `size_ratio` larger than the
/// smallest; otherwise the images have to be compared.
pub fn pick_winner_by_size(group: &DuplicateGroup, size_ratio: Ratio) -> (r: Option<usize>)
    ensures
        r == winner_by_size(group.assets@, size_ratio),
        r matches Some(k) ==> is_first_largest(byte_sizes(group.assets@), k as int),
{
    match collect_sizes(&group.assets) {
        None => None,
        Some(sizes) => {
            let max: u64 = max_size(&sizes);
            let min: u64 = min_size(&sizes);
            proof {
                lemma_smallest_at_most_largest(sizes@);
            }
            if gap_at_most(min, max, size_ratio) {
                None
            } else {
                proof {
                    let (num, den) = (size_ratio.num as int, size_ratio.den as int);
                    assert(0 * den == 0 && num * 0 == 0) by (nonlinear_arith);
                    assert(sizes.len() > 0);
                }
                let k: usize = first_of_size(&sizes, max);
                proof {
                    lemma_first_largest_unique(sizes@, k as int);
                }
                Some(k)
            }
        },
    }
}

// ---- the answer of the vision model -----------------------------------------

/// The text without a markdown fence around it. A text that is not fenced, or
/// whose fence is not closed, is only trimmed.
pub open spec fn unfenced(raw: Seq<char>) -> Seq<char> {
    let t = trim(raw);
    let opened = if after_prefix(t, "```json"@) is Some {
        after_prefix(t, "```json"@)
    } else {
        after_prefix(t, "```"@)
    };
    match opened {
        Some(body) => match before_suffix(strip_leading(body, '\n'), "```"@) {
            Some(inner) => trim_end(inner),
            None => t,
        },
        None => t,
    }
}

pub fn unfence(raw: &str) -> (r: &str)
    ensures
        r@ == unfenced(raw@),
{
    let t = trimmed(raw);
    let opened = match rest_after(t, "```json") {
        Some(body) => Some(body),
        None => rest_after(t, "```"),
    };
    match opened {
        Some(body) => match rest_before(without_leading(body, '\n'), "```") {
            Some(inner) => trimmed_end(inner),
            None => t,
        },
        None => t,
    }
}

/// The index and the reason in an answer: a record of `winner_index`, an
/// integer, and `reason`, a text that may be missing.
pub open spec fn picked(doc: JsonView) -> Option<(usize, Seq<char>)> {
    if !is_record(doc, 2) {
        None
    } else {
        match slot(doc, "winner_index"@, 0) {
            Some(JsonView::Number { text, unsigned: Some(n) }) => if n <= usize::MAX {
                match slot(doc, "reason"@, 1) {
                    None => Some((n as usize, Seq::empty())),
                    Some(JsonView::Text(reason)) => Some((n as usize, reason)),
                    Some(_) => None,
                }
            } else {
                None
            },
            _ => None,
        }
    }
}

/// Reads the index and the reason out of an answer.
pub fn read_pick(doc: &Json) -> (r: Option<(usize, String)>)
    ensures
        match r {
            Some(p) => picked(doc@) == Some((p.0, p.1@)),
            None => picked(doc@) is None,
        },
{
    if !doc.record(2) {
        return None;
    }
    let index: usize = match doc.field("winner_index", 0) {
        Some(Json::Number(n)) => match n.unsigned {
            Some(n) => {
                if n > usize::MAX as u64 {
                    return None;
                }
                n as usize
            },
            None => {
                return None;
            },
        },
        _ => {
            return None;
        },
    };
    match doc.field("reason", 1) {
        None => {
            let reason = String::new();
            assert(reason@ =~= Seq::empty());
            Some((index, reason))
        },
        Some(Json::Text(reason)) => Some((index, reason.clone())),
        Some(_) => None,
    }
}

/// What an answer says, where it is the JSON that was asked for.
pub open spec fn pick_in(raw: Seq<char>) -> Option<(usize, Seq<char>)> {
    match json_of(unfenced(raw)) {
        Ok(doc) => picked(doc),
        Err(_) => None,
    }
}

/// Reads the answer of the vision model on `n` images. A markdown fence around
/// it is tolerated.
pub fn parse_pick_response(raw: &str, n: usize) -> (r: Result<(usize, String), Error>)
    ensures
        match r {
            Ok(p) => pick_in(raw@) == Some((p.0, p.1@)) && p.0 < n,
            Err(Error::PickReplyNotJson { reply, cause }) => {
                &&& pick_in(raw@) is None
                &&& reply@ == raw@
                &&& opt_text(cause) == json_fault(unfenced(raw@))
            },
            Err(Error::PickOutOfRange { index, assets }) => {
                &&& pick_in(raw@) matches Some(p) && p.0 == index
                &&& index >= n
                &&& assets == n
            },
            Err(_) => false,
        },
{
    let (found, cause) = match read_json(unfence(raw)) {
        Ok(doc) => (read_pick(&doc), None),
        Err(cause) => (None, Some(cause)),
    };
    match found {
        None => Err(Error::PickReplyNotJson { reply: raw.to_owned(), cause }),
        Some((index, reason)) => {
            if index >= n {
                Err(Error::PickOutOfRange { index, assets: n })
            } else {
                Ok((index, reason))
            }
        },
    }
}

// ---- what follows from a pick -----------------------------------------------

/// Why a member was picked.
#[derive(Debug, Clone, PartialEq, Eq)]
pub enum PickReason {
    /// Its file is the largest by far.
    LargerFile { smallest: u64, largest: u64 },
    /// The vision model preferred it.
    VisionModel { rationale: String },
}

/// Coordinates to write onto an asset.
#[derive(Debug, Clone, PartialEq, Eq)]
pub struct GpsCopy {
    pub asset_id: String,
    pub latitude: Degrees,
    pub longitude: Degrees,
}

impl View for GpsCopy {
    type V = (Seq<char>, Degrees, Degrees);

    open spec fn view(&self) -> (Seq<char>, Degrees, Degrees) {
        (self.asset_id@, self.latitude, self.longitude)
    }
}

/// What to do with a group whose winner is known.
#[derive(Debug, Clone)]
pub struct ActionPlan {
    pub winner_idx: usize,
    pub pick_reason: PickReason,
    /// Empty where every member has coordinates, or none has.
    pub gps_backfill: Vec<GpsCopy>,
    /// The ids in stack order, the winner first.
    pub stack_order: Vec<String>,
}

/// Where coordinates are copied from: the winner, or else the first member
/// that has some.
pub open spec fn gps_source(assets: Seq<Asset>, winner: int) -> Option<(Degrees, Degrees)> {
    if 0 <= winner < assets.len() && gps(assets[winner]) is Some {
        gps(assets[winner])
    } else {
        first_location(assets)
    }
}

/// Every member without coordinates gets those of the source.
pub open spec fn copies_from(assets: Seq<Asset>, source: (Degrees, Degrees)) -> Seq<
    (Seq<char>, Degrees, Degrees),
>
    decreases assets.len(),
{
    if assets.len() == 0 {
        Seq::empty()
    } else {
        let before = copies_from(assets.drop_last(), source);
        if gps(assets.last()) is None {
            before.push((assets.last().id@, source.0, source.1))
        } else {
            before
        }
    }
}

/// The coordinates to write so that the whole group has some, where one member
/// has.
pub open spec fn backfill(assets: Seq<Asset>, winner: int) -> Seq<(Seq<char>, Degrees, Degrees)> {
    match gps_source(assets, winner) {
        Some(source) => copies_from(assets, source),
        None => Seq::empty(),
    }
}

pub open spec fn copy_views(copies: Seq<GpsCopy>) -> Seq<(Seq<char>, Degrees, Degrees)> {
    copies.map_values(|c: GpsCopy| c@)
}

pub fn compute_gps_backfill(group: &DuplicateGroup, winner_idx: usize) -> (r: Vec<GpsCopy>)
    ensures
        copy_views(r@) == backfill(group.assets@, winner_idx as int),
{
    let assets = &group.assets;
    let own = if winner_idx < assets.len() {
        asset_gps(&assets[winner_idx])
    } else {
        None
    };
    let source = match own {
        Some(g) => Some(g),
        None => find_location(assets),
    };
    let mut out: Vec<GpsCopy> = Vec::new();
    match source {
        None => {
            assert(copy_views(out@) =~= Seq::empty());
        },
        Some((lat, lng)) => {
            let mut i: usize = 0;
            assert(copy_views(out@) =~= copies_from(assets@.take(0), (lat, lng)));
            while i < assets.len()
                invariant
                    i <= assets.len(),
                    copy_views(out@) == copies_from(assets@.take(i as int), (lat, lng)),
                decreases assets.len() - i,
            {
                proof {
                    assert(assets@.take(i + 1).drop_last() =~= assets@.take(i as int));
                }
                if asset_gps(&assets[i]).is_none() {
                    let ghost before = out@;
                    let copy = GpsCopy {
                        asset_id: assets[i].id.clone(),
                        latitude: lat.clone(),
                        longitude: lng.clone(),
                    };
                    let ghost c = copy;
                    out.push(copy);
                    assert(copy_views(out@) =~= copy_views(before).push(c@));
                }
                i += 1;
            }
            assert(assets@.take(i as int) =~= assets@);
        },
    }
    out
}

pub open spec fn asset_ids(assets: Seq<Asset>) -> Seq<Seq<char>> {
    assets.map_values(|a: Asset| a.id@)
}

/// The winner first, then the others in their order.
pub open spec fn winner_first(ids: Seq<Seq<char>>, winner: int) -> Seq<Seq<char>> {
    seq![ids[winner]] + ids.remove(winner)
}

pub fn build_stack_order(group: &DuplicateGroup, winner_idx: usize) -> (r: Vec<String>)
    requires
        winner_idx < group.assets.len(),
    ensures
        texts(r@) == winner_first(asset_ids(group.assets@), winner_idx as int),
{
    let assets = &group.assets;
    let ghost ids = asset_ids(assets@);
    let w: usize = winner_idx;
    let mut out: Vec<String> = Vec::new();
    out.push(assets[w].id.clone());
    let mut i: usize = 0;
    assert(ids.take(0) =~= Seq::<Seq<char>>::empty());
    assert(texts(out@) =~= seq![ids[w as int]] + Seq::<Seq<char>>::empty());
    while i < assets.len()
        invariant
            w < assets.len(),
            ids == asset_ids(assets@),
            i <= assets.len(),
            texts(out@) == seq![ids[w as int]] + if i <= w {
                ids.take(i as int)
            } else {
                ids.take(i as int).remove(w as int)
            },
        decreases assets.len() - i,
    {
        if i != w {
            let ghost before = out@;
            let id = assets[i].id.clone();
            let ghost s = id;
            out.push(id);
            assert(texts(out@) =~= texts(before).push(s@));
            if i < w {
                assert(ids.take(i + 1) =~= ids.take(i as int).push(s@));
            } else {
                assert(ids.take(i + 1).remove(w as int) =~= ids.take(i as int).remove(
                    w as int,
                ).push(s@));
            }
            assert(texts(out@) =~= seq![ids[w as int]] + if i + 1 <= w {
                ids.take(i + 1)
            } else {
                ids.take(i + 1).remove(w as int)
            });
        } else {
            assert(ids.take(i + 1).remove(w as int) =~= ids.take(i as int));
        }
        i += 1;
    }
    assert(ids.take(i as int) =~= ids);
    out
}

/// The plan of a group follows from its winner.
pub open spec fn follows(plan: ActionPlan, assets: Seq<Asset>, winner: int) -> bool {
    &&& plan.winner_idx == winner
    &&& copy_views(plan.gps_backfill@) == backfill(assets, winner)
    &&& texts(plan.stack_order@) == winner_first(asset_ids(assets), winner)
}

/// Plans a group whose winner is known.
pub fn plan_for_winner(group: &DuplicateGroup, winner_idx: usize, pick_reason: PickReason) -> (r:
    ActionPlan)
    requires
        winner_idx < group.assets.len(),
    ensures
        follows(r, group.assets@, winner_idx as int),
        r.pick_reason == pick_reason,
{
    ActionPlan {
        winner_idx,
        pick_reason,
        gps_backfill: compute_gps_backfill(group, winner_idx),
        stack_order: build_stack_order(group, winner_idx),
    }
}

// ---- planning a group -------------------------------------------------------

pub open spec fn pick_prompt(n: nat) -> Seq<char> {
    PICK_USER_PROMPT_HEAD@ + "\n\n本组共 "@ + decimal(n) + " 张候选，索引 0 到 "@ + decimal(
        if n > 0 {
            (n - 1) as nat
        } else {
            0
        },
    ) + "。"@
}

pub fn build_pick_user_prompt(n: usize) -> (r: String)
    ensures
        r@ == pick_prompt(n as nat),
{
    let mut out = PICK_USER_PROMPT_HEAD.to_owned();
    out.append("\n\n本组共 ");
    out.append(numeral(n as u128).as_str());
    out.append(" 张候选，索引 0 到 ");
    let last: usize = if n > 0 {
        n - 1
    } else {
        0
    };
    out.append(numeral(last as u128).as_str());
    out.append("。");
    out
}

/// `images` are the thumbnails of the first `images.len()` assets.
pub open spec fn thumbnails_of<C: CaptionBackend>(
    backend: &C,
    assets: Seq<Asset>,
    images: Seq<(Vec<u8>, String)>,
) -> bool {
    &&& images.len() <= assets.len()
    &&& forall|i: int|
        0 <= i < images.len() ==> {
            &&& (#[trigger] images[i]).1@ == "image/jpeg"@
            &&& thumbnail_reply(backend, assets[i].id@, Ok(images[i].0))
        }
}

/// The model answered `reply` when asked to pick one of `images`.
pub open spec fn vision_reply<V: MultiImageVisionLlm>(
    llm: &V,
    images: Vec<(Vec<u8>, String)>,
    reply: Result<String, Error>,
) -> bool {
    exists|system: &str, user: &str|
        system@ == PICK_SYSTEM_PROMPT@ && user@ == pick_prompt(images.len() as nat)
            && #[trigger] call_ensures(
            V::pick_best,
            (llm, system, user, &images, MAX_PICK_TOKENS),
            reply,
        )
}

/// The failure `e` of a step called `what`.
pub open spec fn failed_during(r: Error, what: Seq<char>, e: Error) -> bool {
    r matches Error::During { what: w, cause: c } && w@ == what && c@ == e.full_text()
}

/// What planning a group by its images comes to: the first failure, or the
/// plan for the winner that the model named.
pub open spec fn planned_by_vision<C: CaptionBackend, V: MultiImageVisionLlm>(
    backend: &C,
    llm: &V,
    assets: Seq<Asset>,
    r: Result<ActionPlan, Error>,
) -> bool {
    exists|images: Vec<(Vec<u8>, String)>| #[trigger]
        thumbnails_of(backend, assets, images@) && {
            ||| {
                &&& images.len() < assets.len()
                &&& r is Err
                &&& exists|e: Error|
                    #![trigger failed_during(r->Err_0, "failed to fetch thumbnail for "@ + assets[images.len() as int].id@, e)]
                    thumbnail_reply(backend, assets[images.len() as int].id@, Err(e))
                        && failed_during(
                        r->Err_0,
                        "failed to fetch thumbnail for "@ + assets[images.len() as int].id@,
                        e,
                    )
            }
            ||| {
                &&& images.len() == assets.len()
                &&& exists|reply: Result<String, Error>| #[trigger]
                    vision_reply(llm, images, reply) && match reply {
                        Err(e) => r is Err && failed_during(r->Err_0, "vision pick failed"@, e),
                        Ok(raw) => match pick_in(raw@) {
                            None => r is Err && (r->Err_0 matches Error::PickReplyNotJson {
                                reply: t,
                                cause,
                            } && t@ == raw@ && opt_text(cause) == json_fault(unfenced(raw@))),
                            Some(p) => if p.0 < assets.len() {
                                &&& r is Ok
                                &&& follows(r->Ok_0, assets, p.0 as int)
                                &&& r->Ok_0.pick_reason matches PickReason::VisionModel {
                                    rationale,
                                } && rationale@ == p.1
                            } else {
                                r == Err::<ActionPlan, Error>(
                                    Error::PickOutOfRange {
                                        index: p.0,
                                        assets: assets.len() as usize,
                                    },
                                )
                            },
                        },
                    }
            }
        }
}

/// What planning a group comes to. The images are compared only where the
/// sizes do not decide.
pub open spec fn planned<C: CaptionBackend, V: MultiImageVisionLlm>(
    backend: &C,
    llm: &V,
    assets: Seq<Asset>,
    size_ratio: Ratio,
    r: Result<ActionPlan, Error>,
) -> bool {
    match winner_by_size(assets, size_ratio) {
        Some(k) => {
            &&& r is Ok
            &&& follows(r->Ok_0, assets, k as int)
            &&& r->Ok_0.pick_reason == PickReason::LargerFile {
                smallest: smallest(byte_sizes(assets)),
                largest: largest(byte_sizes(assets)),
            }
        },
        None => planned_by_vision(backend, llm, assets, r),
    }
}

/// What planning a group needs may be asked for: nothing where the sizes decide;
/// otherwise one image after the other, and which is best once all are there.
pub open spec fn planning_allowed<C: CaptionBackend, V: MultiImageVisionLlm>(
    backend: &C,
    llm: &V,
    assets: Seq<Asset>,
    size_ratio: Ratio,
) -> bool {
    winner_by_size(assets, size_ratio) is None ==> forall|images: Seq<(Vec<u8>, String)>|
        #[trigger] thumbnails_of(backend, assets, images) ==> if images.len() < assets.len() {
            backend.may_fetch(assets[images.len() as int].id@)
        } else {
            llm.may_pick(
                PICK_SYSTEM_PROMPT@,
                pick_prompt(assets.len()),
                image_views(images),
                MAX_PICK_TOKENS,
            )
        }
}

/// Picks the winner of a group and plans what follows.
pub fn plan_group<C: CaptionBackend, V: MultiImageVisionLlm>(
    caption_be: &C,
    llm: &V,
    group: &DuplicateGroup,
    size_ratio: Ratio,
) -> (r: Result<ActionPlan, Error>)
    requires
        planning_allowed(caption_be, llm, group.assets@, size_ratio),
    ensures
        planned(caption_be, llm, group.assets@, size_ratio, r),
        r matches Ok(plan) ==> plan.winner_idx < group.assets.len(),
{
    if let Some(k) = pick_winner_by_size(group, size_ratio) {
        if let Some(sizes) = collect_sizes(&group.assets) {
            let reason = PickReason::LargerFile {
                smallest: min_size(&sizes),
                largest: max_size(&sizes),
            };
            return Ok(plan_for_winner(group, k, reason));
        }
    }
    assert(winner_by_size(group.assets@, size_ratio) is None);
    let n: usize = group.assets.len();
    let mut images: Vec<(Vec<u8>, String)> = Vec::new();
    while images.len() < n
        invariant
            n == group.assets.len(),
            images.len() <= n,
            winner_by_size(group.assets@, size_ratio) is None,
            planning_allowed(caption_be, llm, group.assets@, size_ratio),
            thumbnails_of(caption_be, group.assets@, images@),
        decreases n - images.len(),
    {
        let i: usize = images.len();
        let id = group.assets[i].id.as_str();
        let reply = caption_be.thumbnail(id);
        assert(thumbnail_reply(caption_be, group.assets@[i as int].id@, reply));
        match reply {
            Ok(bytes) => images.push((bytes, "image/jpeg".to_owned())),
            Err(e) => {
                let ghost cause = e;
                let mut what = "failed to fetch thumbnail for ".to_owned();
                what.append(id);
                let failure = e.during(what);
                assert(failed_during(
                    failure,
                    "failed to fetch thumbnail for "@ + group.assets@[i as int].id@,
                    cause,
                ));
                let r: Result<ActionPlan, Error> = Err(failure);
                assert(planned_by_vision(caption_be, llm, group.assets@, r));
                return r;
            },
        }
    }
    let prompt = build_pick_user_prompt(n);
    let reply = llm.pick_best(PICK_SYSTEM_PROMPT, prompt.as_str(), &images, MAX_PICK_TOKENS);
    assert(vision_reply(llm, images, reply));
    match reply {
        Err(e) => Err(e.during("vision pick failed".to_owned())),
        Ok(raw) => match parse_pick_response(raw.as_str(), n) {
            Err(e) => Err(e),
            Ok((k, rationale)) => Ok(
                plan_for_winner(group, k, PickReason::VisionModel { rationale }),
            ),
        },
    }
}

// ---- what a plan guarantees -------------------------------------------------

/// A stack holds every member of the group, each once, with the winner as the
/// cover.
pub proof fn law_stack_order_is_a_permutation(ids: Seq<Seq<char>>, winner: int)
    requires
        0 <= winner < ids.len(),
    ensures
        winner_first(ids, winner)[0] == ids[winner],
        winner_first(ids, winner).len() == ids.len(),
        winner_first(ids, winner).to_multiset() == ids.to_multiset(),
{
    broadcast use vstd::seq_lib::group_to_multiset_ensures;

    let first = seq![ids[winner]];
    let rest = ids.remove(winner);
    vstd::seq_lib::lemma_multiset_commutative(first, rest);
    assert(first =~= Seq::<Seq<char>>::empty().push(ids[winner]));
    assert(winner_first(ids, winner).to_multiset() =~= ids.to_multiset());
}

/// The item writes the source onto a member without coordinates.
pub open spec fn is_copy_onto_unlocated(
    assets: Seq<Asset>,
    source: (Degrees, Degrees),
    item: (Seq<char>, Degrees, Degrees),
) -> bool {
    exists|j: int|
        0 <= j < assets.len() && gps(#[trigger] assets[j]) is None && item == (
            assets[j].id@,
            source.0,
            source.1,
        )
}

/// Where one member has coordinates, exactly the members without coordinates
/// get some, and all get the same.
pub proof fn law_backfill_reaches_every_member(assets: Seq<Asset>, winner: int, i: int)
    requires
        0 <= i < assets.len(),
        gps(assets[i]) is Some,
    ensures
        gps_source(assets, winner) is Some,
        forall|j: int|
            0 <= j < assets.len() && gps(#[trigger] assets[j]) is None ==> backfill(
                assets,
                winner,
            ).contains(
                (
                    assets[j].id@,
                    gps_source(assets, winner)->Some_0.0,
                    gps_source(assets, winner)->Some_0.1,
                ),
            ),
        forall|k: int|
            0 <= k < backfill(assets, winner).len() ==> is_copy_onto_unlocated(
                assets,
                gps_source(assets, winner)->Some_0,
                #[trigger] backfill(assets, winner)[k],
            ),
{
    lemma_first_located_exists(assets, i);
    let first = choose|k: int| is_first_located(assets, k);
    assert(is_first_located(assets, first));
    lemma_copies(assets, gps_source(assets, winner)->0);
}

pub proof fn lemma_copies(assets: Seq<Asset>, source: (Degrees, Degrees))
    ensures
        forall|j: int|
            0 <= j < assets.len() && gps(#[trigger] assets[j]) is None ==> copies_from(
                assets,
                source,
            ).contains((assets[j].id@, source.0, source.1)),
        forall|k: int|
            0 <= k < copies_from(assets, source).len() ==> is_copy_onto_unlocated(
                assets,
                source,
                #[trigger] copies_from(assets, source)[k],
            ),
    decreases assets.len(),
{
    if assets.len() > 0 {
        let past = assets.drop_last();
        let before = copies_from(past, source);
        let now = copies_from(assets, source);
        lemma_copies(past, source);
        assert forall|j: int| 0 <= j < assets.len() && gps(#[trigger] assets[j]) is None implies
            now.contains((assets[j].id@, source.0, source.1)) by {
            let item = (assets[j].id@, source.0, source.1);
            if j < past.len() {
                assert(past[j] == assets[j]);
                assert(before.contains(item));
                let k = choose|k: int| 0 <= k < before.len() && before[k] == item;
                assert(now[k] == item);
            } else {
                assert(now[now.len() - 1] == item);
            }
        }
        assert forall|k: int| 0 <= k < now.len() implies is_copy_onto_unlocated(
            assets,
            source,
            #[trigger] now[k],
        ) by {
            if k < before.len() {
                assert(now[k] == before[k]);
                let j = choose|j: int|
                    0 <= j < past.len() && gps(#[trigger] past[j]) is None && before[k] == (
                        past[j].id@,
                        source.0,
                        source.1,
                    );
                assert(assets[j] == past[j]);
            } else {
                assert(gps(assets[assets.len() - 1]) is None);
            }
        }
    }
}

} // verus!
