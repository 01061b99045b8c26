//! The pages of the web interface.
use crate::cache::{CacheView, ObjectCache};
use crate::cache_model::CacheAlgorithmType;
use crate::metadata::{ObjectInfo, ObjectInfoView};
use crate::policies::algorithm_name;
use crate::rates::{exact_percent_text, percent_text, show_percent};
use crate::search::option_view;
use crate::shm::{SharedMemory, ShmHeader, SHM_HEADER_SIZE};
use crate::sizes::{fmt_bytes, fmt_uptime, scaled_text, uptime_text};
use crate::storage::{infos_of, lemma_block_fits, ObjectStorage, StoreView};
use crate::text::{decimal, push_decimal, same_text};
use vstd::prelude::*;
use vstd::string::*;

verus! {

pub const PAGE_START: &'static str = r#"<!DOCTYPE html><html lang="zh-CN"><head><meta charset="utf-8">
<meta name="viewport" content="width=device-width,initial-scale=1">
"#;

pub const PAGE_STYLE: &'static str = r#"</title>
<style>
*{box-sizing:border-box;margin:0;padding:0}
body{font-family:-apple-system,BlinkMacSystemFont,'PingFang SC','Hiragino Sans GB','Microsoft YaHei','Segoe UI',sans-serif;background:#f6f6f6;color:#1a1a1a;line-height:1.7;min-height:100vh}
.header{background:#fff;box-shadow:0 1px 3px rgba(18,18,18,.08);position:sticky;top:0;z-index:100}
.header-inner{max-width:1000px;margin:0 auto;padding:0 20px;display:flex;align-items:center;height:56px}
.logo{font-size:1.3em;font-weight:700;color:#06f;margin-right:32px;text-decoration:none;letter-spacing:-.5px}
.logo span{color:#333;font-weight:400}
.nav{display:flex;gap:4px}
.nav a{padding:8px 16px;border-radius:6px;color:#555;text-decoration:none;font-size:.95em;transition:all .15s;font-weight:500}
.nav a:hover,.nav a.active{background:#06f1a;color:#06f}
.main{max-width:1000px;margin:24px auto;padding:0 20px}
.card{background:#fff;border-radius:8px;padding:24px;margin-bottom:16px;box-shadow:0 1px 3px rgba(18,18,18,.06)}
.card h2{font-size:1.15em;font-weight:600;color:#1a1a1a;margin-bottom:16px;padding-bottom:12px;border-bottom:1px solid #f0f0f0}
table{width:100%;border-collapse:collapse}
th,td{padding:10px 14px;text-align:left;border-bottom:1px solid #f0f0f0}
th{background:#fafafa;color:#8590a6;font-weight:500;font-size:.9em}
tr:hover{background:#fafafa}
label{display:block;font-weight:500;color:#444;margin:16px 0 6px;font-size:.95em}
input,textarea,select{width:100%;padding:10px 14px;border:1px solid #e0e0e0;border-radius:6px;font-size:.95em;font-family:inherit;transition:border-color .15s;background:#fafafa}
input:focus,textarea:focus{outline:none;border-color:#06f;background:#fff}
textarea{resize:vertical;min-height:120px}
input[type=file]{padding:8px}
.btn{display:inline-block;padding:10px 24px;border:none;border-radius:6px;font-size:.95em;font-weight:500;cursor:pointer;text-decoration:none;transition:all .15s;margin:8px 8px 0 0}
.btn-primary{background:#06f;color:#fff}
.btn-primary:hover{background:#05c}
.btn-danger{background:#fff;color:#e74c3c;border:1px solid #e74c3c}
.btn-danger:hover{background:#e74c3c;color:#fff}
.btn-back{display:inline-block;margin-top:16px;color:#8590a6;text-decoration:none;font-size:.95em}
.btn-back:hover{color:#06f}
.obj-link{color:#06f;text-decoration:none;font-weight:500}
.obj-link:hover{text-decoration:underline}
.btn-delete{color:#e74c3c;text-decoration:none;font-weight:500;font-size:.9em}
.btn-delete:hover{text-decoration:underline}
.stats-grid{display:grid;grid-template-columns:repeat(auto-fit,minmax(200px,1fr));gap:16px;margin:16px 0}
.stat-item{text-align:center;padding:16px;background:#fafafa;border-radius:8px}
.stat-value{font-size:1.8em;font-weight:700;color:#06f}
.stat-label{font-size:.85em;color:#8590a6;margin-top:4px}
.success{color:#00a854;font-weight:500;font-size:1.05em;margin:8px 0}
.error{color:#e74c3c;font-weight:500;margin:8px 0}
.empty{color:#8590a6;text-align:center;padding:32px 0}
.info-table td,.info-table th{border:none}
.info-table td:first-child,.info-table th:first-child{width:80px;color:#8590a6}
.footer{text-align:center;color:#8590a6;font-size:.8em;padding:24px 0;border-top:1px solid #f0f0f0;margin-top:32px}
.bar{height:8px;border-radius:4px;background:#f0f0f0;overflow:hidden;margin:8px 0}
.bar-fill{height:100%;border-radius:4px;transition:width .5s}
.bar-green{background:linear-gradient(90deg,#06f,#00a854)}
.form-row{display:flex;gap:12px;flex-wrap:wrap}
.form-row>div{flex:1;min-width:200px}
</style></head><body>
<div class="header"><div class="header-inner">
<a class="logo" href="/">Mini<span>OS</span></a>
<div class="nav">
<a href="/""#;

pub const PAGE_MAIN: &'static str = r#">删除</a><a href="/metrics">监控</a>
</div></div></div>
<div class="main"><div class="card"><h2>"#;

pub const PAGE_FOOTER: &'static str = r#"</div></div>
<div class="footer">MiniOS v"#;

pub const PAGE_END: &'static str = " · 轻量级对象存储服务 · Web 管理控制台</div>
</body></html>";

pub const REFRESH: &'static str = r#"<meta http-equiv="refresh" content="5">"#;

pub const STORED_START: &'static str = "<div class='success'>对象上传成功</div>
                <table class='info-table'><tr><th>名称</th><td>";

pub const STORED_UUID: &'static str = "</td></tr>
                <tr><th>UUID</th><td style='font-family:monospace;font-size:0.9em'>";

pub const STORED_SIZE: &'static str = "</td></tr>
                <tr><th>大小</th><td>";

pub const STORED_TYPE: &'static str = " 字节</td></tr>
                <tr><th>类型</th><td>";

pub const STORED_END: &'static str = "</td></tr></table>
                <a class='btn-back' href='/manage'>返回管理页面</a>";

pub const BACK_TO_MANAGE: &'static str = "</p><a class='btn-back' href='/manage'>返回</a>";

pub const BACK_TO_GET: &'static str = "</p><a class='btn-back' href='/api/get'>返回</a>";

pub const BACK_TO_DELETE: &'static str = "</p><a class='btn-back' href='/api/delete'>返回</a>";

pub const DELETED_END: &'static str = "」已成功删除</div><a class='btn-back' href='/manage'>返回管理页面</a>";

pub const RESIZED_ENTRIES: &'static str = "</div>
                <table class='info-table'><tr><th>当前条目</th><td>";

pub const RESIZED_RATE: &'static str = "</td></tr>
                <tr><th>命中率</th><td>";

pub const RESIZED_END: &'static str = "%</td></tr></table>
                <a class='btn-back' href='/manage'>返回</a>";

pub const DOWNLOAD_START: &'static str = "<tr><td><a class='obj-link' href='/api/get?key=";

pub const DOWNLOAD_UUID: &'static str = "</a></td><td style='font-family:monospace;font-size:0.82em;color:#8590a6'>";

pub const DELETE_UUID: &'static str = "</strong></td><td style='font-family:monospace;font-size:0.82em;color:#8590a6'>";

pub const DELETE_LINK: &'static str = " 字节</td><td><a class='btn-delete' href='/api/delete?key=";

pub const OBJECT_UUID: &'static str = "</strong></td><td style='font-family:monospace;font-size:.82em;color:#8590a6'>";

pub const DOWNLOAD_TABLE: &'static str = r#"<input type='text' id='searchBox' placeholder='输入关键词实时筛选...' style='width:100%;padding:8px 12px;margin-bottom:12px;border:1px solid #e0e0e0;border-radius:6px;font-size:.95em' oninput="var v=this.value.toLowerCase();document.querySelectorAll('#objTable tbody tr').forEach(function(r){ r.style.display=r.textContent.toLowerCase().indexOf(v)>=0?'':'none'});"><p>点击文件名即可下载：</p><table id='objTable'><tr><th>名称</th><th>UUID</th><th>大小</th><th>创建时间</th></tr>"#;

pub const DELETE_TABLE: &'static str = r#"<input type='text' id='searchBoxDel' placeholder='输入关键词实时筛选...' style='width:100%;padding:8px 12px;margin-bottom:12px;border:1px solid #e0e0e0;border-radius:6px;font-size:.95em' oninput="var v=this.value.toLowerCase();document.querySelectorAll('#delTable tbody tr').forEach(function(r){ r.style.display=r.textContent.toLowerCase().indexOf(v)>=0?'':'none'});"><table id='delTable'><tr><th>名称</th><th>UUID</th><th>大小</th><th>操作</th></tr>"#;

pub const DELETE_TABLE_END: &'static str = "</table><a class='btn-back' href='/manage'>返回</a>";

pub const EMPTY_DELETE: &'static str = "<tr><td colspan='4' class='empty'>暂无对象可删除</td></tr>";

pub const SEARCH_NAME: &'static str = "<form method='GET' action='/api/search' style='margin-bottom:16px'><div class='form-row'><div><label>名称</label><input name='name' value='";

pub const SEARCH_TAG: &'static str = "' autocomplete='off'></div><div><label>标签</label><input name='tag' value='";

pub const SEARCH_TYPE: &'static str = "' autocomplete='off'></div><div><label>类型</label><input name='type' value='";

pub const SEARCH_QUERY: &'static str = "' autocomplete='off'></div></div><button class='btn btn-primary' type='submit' style='margin-top:8px'>搜索</button></form><p style='color:#8590a6;margin-bottom:12px'>搜索条件：";

pub const SEARCH_TABLE: &'static str = " 个结果</p><table><tr><th>名称</th><th>UUID</th><th>大小</th><th>类型</th><th>创建时间</th></tr>";

pub const SEARCH_END: &'static str = "</table><a class='btn-back' href='/manage'>← 返回管理页面</a>";

pub const EMPTY_SEARCH: &'static str = "<tr><td colspan='5' class='empty'>无匹配结果，换个关键词试试</td></tr>";

pub const EMPTY_MANAGE: &'static str = "<tr><td colspan='5' class='empty'>暂无对象，请使用上方表单上传</td></tr>";

pub const STATS_START: &'static str = r#"<div class="stats-grid">
<div class="stat-item"><div class="stat-value">"#;

pub const MANAGE_USED: &'static str = r#"</div><div class="stat-label">已存对象</div></div>
<div class="stat-item"><div class="stat-value">"#;

pub const MANAGE_CAPACITY: &'static str = r#"%</div><div class="stat-label">容量使用率</div></div>
<div class="stat-item"><div class="stat-value">"#;

pub const MANAGE_HITS: &'static str = r#"</div><div class="stat-label">缓存容量</div></div>
<div class="stat-item"><div class="stat-value">"#;

pub const MANAGE_FORMS: &'static str = r#"%</div><div class="stat-label">命中率</div></div>
</div>

<h2 style="margin-top:24px">上传对象</h2>
<form method="POST" action="/api/put" enctype="multipart/form-data" autocomplete="off">
  <div class="form-row">
    <div><label>对象名称</label><input name="name" required placeholder="my-document.txt" autocomplete="off"></div>
    <div><label>内容类型</label><input name="type" value="text/plain" list="mime-types" autocomplete="off">
    <datalist id="mime-types">
      <option value="text/plain">
      <option value="text/html">
      <option value="application/json">
      <option value="application/octet-stream">
      <option value="image/png">
      <option value="image/jpeg">
      <option value="application/pdf">
      <option value="text/css">
      <option value="application/javascript">
    </datalist></div>
  </div>
  <div class="form-row">
    <div><label>标签（JSON 格式）</label><input name="tags" value='{{}}' placeholder='{"author":"me"}' autocomplete="off"></div>
  </div>
  <label>选择文件（从本地上传）</label>
  <input type="file" name="file" autocomplete="off">
  <label>或直接粘贴文件内容</label>
  <textarea name="content" placeholder="在此粘贴文件内容（如不选择文件则使用此内容）" autocomplete="off"></textarea>
  <button class="btn btn-primary" type="submit">上传</button>
</form>

<h2 style="margin-top:24px">缓存控制</h2>
<form method="POST" action="/api/resize">
  <div class="form-row">
    <div><label>缓存容量（当前 "#;

pub const MANAGE_RESIZE: &'static str = r#"）</label><input name="capacity" type="number" min="1" value=""#;

pub const MANAGE_SEARCH: &'static str = r#"" required></div>
    <div style="display:flex;align-items:flex-end"><button class="btn btn-primary" type="submit">调整容量</button></div>
  </div>
</form>
<a class="btn btn-primary" href="/api/benchmark">运行性能测试</a>

<h2 style="margin-top:24px">搜索对象</h2>
<form method="GET" action="/api/search" style="margin-bottom:8px">
  <div class="form-row">
    <div><label>名称</label><input name="name" placeholder="模糊搜索" autocomplete="off"></div>
    <div><label>标签</label><input name="tag" placeholder='如 author=me' autocomplete="off"></div>
    <div><label>类型</label><input name="type" placeholder='如 image' autocomplete="off"></div>
    <div style="display:flex;align-items:flex-end"><button class="btn btn-primary" type="submit">搜索</button></div>
  </div>
</form>

<h2 style="margin-top:24px">对象列表（共 "#;

pub const MANAGE_TABLE: &'static str = " 个）</h2>
<table><tr><th>名称</th><th>UUID</th><th>大小</th><th>类型</th><th>创建时间</th></tr>";

pub const MANAGE_USE: &'static str = r#"</table>
<p style="color:#8590a6;margin-top:8px">存储用量："#;

pub const DASH_OBJECTS: &'static str = r#"</div><div class="stat-label">运行时间</div></div>
<div class="stat-item"><div class="stat-value">"#;

pub const DASH_HITS: &'static str = r#"</div><div class="stat-label">对象总数</div></div>
<div class="stat-item"><div class="stat-value">"#;

pub const DASH_ALGORITHM: &'static str = r#"%</div><div class="stat-label">命中率</div></div>
<div class="stat-item"><div class="stat-value">"#;

pub const DASH_STORAGE: &'static str = r#"</div><div class="stat-label">缓存算法</div></div>
</div>
<h2>存储</h2>
<table>
<tr><td>已用容量</td><td>"#;

pub const DASH_BAR: &'static str = r#"%）</td></tr>
<tr><td colspan="2"><div class="bar"><div class="bar-fill bar-green" style="width:"#;

pub const DASH_BLOCKS: &'static str = r#"%"></div></div></td></tr>
<tr><td>数据块</td><td>"#;

pub const DASH_COUNT: &'static str = " 每块）</td></tr>
<tr><td>对象数</td><td>";

pub const DASH_CACHE: &'static str = "（上限）</td></tr>
</table>
<h2>缓存 — ";

pub const DASH_ENTRIES: &'static str = " 算法</h2>
<table>
<tr><td>当前条目 / 容量</td><td>";

pub const DASH_HIT_COUNTS: &'static str = "</td></tr>
<tr><td>命中 / 未命中</td><td>";

pub const DASH_EVICTIONS: &'static str = "</td></tr>
<tr><td>淘汰次数</td><td>";

pub const DASH_RATE: &'static str = "</td></tr>
<tr><td>命中率</td><td><strong>";

pub const DASH_PAGES: &'static str = "%</strong></td></tr>
</table>
<h2>共享内存</h2>
<table><tr><td>空闲页 / 总页数</td><td>";

pub const DASH_END: &'static str = "</td></tr><tr><td>页大小</td><td>4 KB</td></tr></table>";

/// The part of a page's head that has it loaded anew every five seconds.
pub open spec fn refresh_tag(auto_refresh: bool) -> Seq<char> {
    if auto_refresh {
        REFRESH@
    } else {
        ""@
    }
}

/// The mark of the tab that a page belongs to.
pub open spec fn tab_mark(active_tab: Seq<char>, tab: Seq<char>) -> Seq<char> {
    if active_tab == tab {
        " class='active'"@
    } else {
        ""@
    }
}

fn mark_of(active_tab: &str, tab: &str) -> (r: &'static str)
    ensures
        r@ == tab_mark(active_tab@, tab@),
{
    if same_text(active_tab, tab) {
        " class='active'"
    } else {
        ""
    }
}

/// A page of the web interface.
pub open spec fn page_text(
    title: Seq<char>,
    body: Seq<char>,
    auto_refresh: bool,
    active_tab: Seq<char>,
    version: Seq<char>,
) -> Seq<char> {
    PAGE_START@ + refresh_tag(auto_refresh) + "<title>MiniOS - "@ + title + PAGE_STYLE@
        + tab_mark(active_tab, "overview"@) + ">总览</a><a href=\"/manage\""@
        + tab_mark(active_tab, "manage"@) + ">管理</a><a href=\"/api/get\""@
        + tab_mark(active_tab, "download"@) + ">下载</a><a href=\"/api/delete\""@
        + tab_mark(active_tab, "delete"@) + PAGE_MAIN@ + title + "</h2>"@ + body + PAGE_FOOTER@
        + version + PAGE_END@
}

/// Makes a page. `active_tab` is the tab that it belongs to; empty for none.
pub fn page_with_refresh(
    title: &str,
    body: &str,
    auto_refresh: bool,
    active_tab: &str,
    version: &str,
) -> (r: String)
    ensures
        r@ == page_text(title@, body@, auto_refresh, active_tab@, version@),
{
    let mut out = PAGE_START.to_owned();
    out.append(if auto_refresh {
        REFRESH
    } else {
        ""
    });
    out.append("<title>MiniOS - ");
    out.append(title);
    out.append(PAGE_STYLE);
    out.append(mark_of(active_tab, "overview"));
    out.append(">总览</a><a href=\"/manage\"");
    out.append(mark_of(active_tab, "manage"));
    out.append(">管理</a><a href=\"/api/get\"");
    out.append(mark_of(active_tab, "download"));
    out.append(">下载</a><a href=\"/api/delete\"");
    out.append(mark_of(active_tab, "delete"));
    out.append(PAGE_MAIN);
    out.append(title);
    out.append("</h2>");
    out.append(body);
    out.append(PAGE_FOOTER);
    out.append(version);
    out.append(PAGE_END);
    out
}

/// Makes a page that belongs to no tab.
pub fn page(title: &str, body: &str, version: &str) -> (r: String)
    ensures
        r@ == page_text(title@, body@, false, ""@, version@),
{
    page_with_refresh(title, body, false, "", version)
}

/// Makes a page of a tab.
pub fn page_tab(title: &str, body: &str, tab: &str, version: &str) -> (r: String)
    ensures
        r@ == page_text(title@, body@, false, tab@, version@),
{
    page_with_refresh(title, body, false, tab, version)
}

/// Tells that an object was stored.
pub open spec fn stored_text(info: ObjectInfoView) -> Seq<char> {
    STORED_START@ + info.name + STORED_UUID@ + info.uuid + STORED_SIZE@
        + decimal(info.size as nat) + STORED_TYPE@ + info.content_type + STORED_END@
}

/// Tells that an object was stored.
pub fn stored_body(info: &ObjectInfo) -> (r: String)
    ensures
        r@ == stored_text(info@),
{
    let mut out = STORED_START.to_owned();
    out.append(info.name.as_str());
    out.append(STORED_UUID);
    out.append(info.uuid.as_str());
    out.append(STORED_SIZE);
    push_decimal(&mut out, info.size);
    out.append(STORED_TYPE);
    out.append(info.content_type.as_str());
    out.append(STORED_END);
    out
}

/// Tells that an object could not be stored.
pub open spec fn upload_failed_text(e: Seq<char>) -> Seq<char> {
    "<p class='error'>上传失败："@ + e + BACK_TO_MANAGE@
}

/// Tells that an object could not be stored.
pub fn upload_failed_body(e: &str) -> (r: String)
    ensures
        r@ == upload_failed_text(e@),
{
    let mut out = "<p class='error'>上传失败：".to_owned();
    out.append(e);
    out.append(BACK_TO_MANAGE);
    out
}

/// Tells that there is no such object.
pub open spec fn unknown_text(e: Seq<char>) -> Seq<char> {
    "<p class='error'>对象未找到："@ + e + BACK_TO_GET@
}

/// Tells that there is no such object.
pub fn unknown_body(e: &str) -> (r: String)
    ensures
        r@ == unknown_text(e@),
{
    let mut out = "<p class='error'>对象未找到：".to_owned();
    out.append(e);
    out.append(BACK_TO_GET);
    out
}

/// Tells that the data of an object cannot be read.
pub open spec fn unreadable_text(e: Seq<char>) -> Seq<char> {
    "<p class='error'>"@ + e + "<a class='btn-back' href='/api/get'>返回</a>"@
}

/// Tells that the data of an object cannot be read.
pub fn unreadable_body(e: &str) -> (r: String)
    ensures
        r@ == unreadable_text(e@),
{
    let mut out = "<p class='error'>".to_owned();
    out.append(e);
    out.append("<a class='btn-back' href='/api/get'>返回</a>");
    out
}

/// Tells why an object was not looked for.
pub open spec fn not_deleted_text(e: Seq<char>) -> Seq<char> {
    "<p class='error'>"@ + e + BACK_TO_DELETE@
}

/// Tells why an object was not looked for.
pub fn not_deleted_body(e: &str) -> (r: String)
    ensures
        r@ == not_deleted_text(e@),
{
    let mut out = "<p class='error'>".to_owned();
    out.append(e);
    out.append(BACK_TO_DELETE);
    out
}

/// Tells that an object was deleted.
pub open spec fn deleted_text(key: Seq<char>) -> Seq<char> {
    "<div class='success'>对象「"@ + key + DELETED_END@
}

/// Tells that an object was deleted.
pub fn deleted_body(key: &str) -> (r: String)
    ensures
        r@ == deleted_text(key@),
{
    let mut out = "<div class='success'>对象「".to_owned();
    out.append(key);
    out.append(DELETED_END);
    out
}

/// Tells that an object could not be deleted.
pub open spec fn delete_failed_text(e: Seq<char>) -> Seq<char> {
    "<p class='error'>删除失败："@ + e + BACK_TO_DELETE@
}

/// Tells that an object could not be deleted.
pub fn delete_failed_body(e: &str) -> (r: String)
    ensures
        r@ == delete_failed_text(e@),
{
    let mut out = "<p class='error'>删除失败：".to_owned();
    out.append(e);
    out.append(BACK_TO_DELETE);
    out
}

/// Tells that the cache has another capacity. `rate` is the hit rate in percent.
pub open spec fn resized_text(before: nat, wanted: nat, size: nat, capacity: nat, rate: Seq<char>) -> Seq<char> {
    "<div class='success'>缓存容量已从 "@ + decimal(before) + " 调整到 "@ + decimal(wanted)
        + RESIZED_ENTRIES@ + decimal(size) + " / "@ + decimal(capacity) + RESIZED_RATE@ + rate
        + RESIZED_END@
}

/// Tells that the cache has another capacity. `rate` is the hit rate in percent.
pub fn resized_body(before: usize, wanted: usize, size: usize, capacity: usize, rate: &str) -> (r: String)
    ensures
        r@ == resized_text(before as nat, wanted as nat, size as nat, capacity as nat, rate@),
{
    let mut out = "<div class='success'>缓存容量已从 ".to_owned();
    push_decimal(&mut out, before as u64);
    out.append(" 调整到 ");
    push_decimal(&mut out, wanted as u64);
    out.append(RESIZED_ENTRIES);
    push_decimal(&mut out, size as u64);
    out.append(" / ");
    push_decimal(&mut out, capacity as u64);
    out.append(RESIZED_RATE);
    out.append(rate);
    out.append(RESIZED_END);
    out
}

/// The row of an object that can be fetched.
pub open spec fn download_row_text(info: ObjectInfoView) -> Seq<char> {
    DOWNLOAD_START@ + info.uuid + "'>"@ + info.name + DOWNLOAD_UUID@ + info.uuid
        + "</td><td>"@ + decimal(info.size as nat) + " 字节</td><td>"@ + info.created_at
        + "</td></tr>"@
}

/// The row of an object that can be fetched.
pub fn download_row(info: &ObjectInfo) -> (r: String)
    ensures
        r@ == download_row_text(info@),
{
    let mut out = DOWNLOAD_START.to_owned();
    out.append(info.uuid.as_str());
    out.append("'>");
    out.append(info.name.as_str());
    out.append(DOWNLOAD_UUID);
    out.append(info.uuid.as_str());
    out.append("</td><td>");
    push_decimal(&mut out, info.size);
    out.append(" 字节</td><td>");
    out.append(info.created_at.as_str());
    out.append("</td></tr>");
    out
}

/// The row of an object that can be deleted.
pub open spec fn delete_row_text(info: ObjectInfoView) -> Seq<char> {
    "<tr><td><strong>"@ + info.name + DELETE_UUID@ + info.uuid + "</td><td>"@
        + decimal(info.size as nat) + DELETE_LINK@ + info.uuid
        + "' onclick=\"return confirm('确定要删除「"@ + info.name + "」吗？')\">删除</a></td></tr>"@
}

/// The row of an object that can be deleted.
pub fn delete_row(info: &ObjectInfo) -> (r: String)
    ensures
        r@ == delete_row_text(info@),
{
    let mut out = "<tr><td><strong>".to_owned();
    out.append(info.name.as_str());
    out.append(DELETE_UUID);
    out.append(info.uuid.as_str());
    out.append("</td><td>");
    push_decimal(&mut out, info.size);
    out.append(DELETE_LINK);
    out.append(info.uuid.as_str());
    out.append("' onclick=\"return confirm('确定要删除「");
    out.append(info.name.as_str());
    out.append("」吗？')\">删除</a></td></tr>");
    out
}

/// The row of an object.
pub open spec fn object_row_text(info: ObjectInfoView) -> Seq<char> {
    "<tr><td><strong>"@ + info.name + OBJECT_UUID@ + info.uuid + "</td><td>"@
        + decimal(info.size as nat) + " 字节</td><td>"@ + info.content_type + "</td><td>"@
        + info.created_at + "</td></tr>"@
}

/// The row of an object.
pub fn object_row(info: &ObjectInfo) -> (r: String)
    ensures
        r@ == object_row_text(info@),
{
    let mut out = "<tr><td><strong>".to_owned();
    out.append(info.name.as_str());
    out.append(OBJECT_UUID);
    out.append(info.uuid.as_str());
    out.append("</td><td>");
    push_decimal(&mut out, info.size);
    out.append(" 字节</td><td>");
    out.append(info.content_type.as_str());
    out.append("</td><td>");
    out.append(info.created_at.as_str());
    out.append("</td></tr>");
    out
}

/// The rows of the first `n` of the objects that can be fetched.
pub open spec fn download_rows_text(infos: Seq<ObjectInfoView>, n: int) -> Seq<char>
    decreases n,
{
    if n <= 0 {
        Seq::empty()
    } else {
        download_rows_text(infos, n - 1) + download_row_text(infos[n - 1])
    }
}

fn download_rows(objects: &Vec<ObjectInfo>) -> (r: String)
    ensures
        r@ == download_rows_text(infos_of(objects@), objects@.len() as int),
{
    let ghost infos = infos_of(objects@);
    let mut out = String::new();
    let mut i: usize = 0;
    while i < objects.len()
        invariant
            i <= objects@.len(),
            infos == infos_of(objects@),
            out@ == download_rows_text(infos, i as int),
        decreases objects@.len() - i,
    {
        assert(infos[i as int] == objects@[i as int]@);
        let row = download_row(&objects[i]);
        out.append(row.as_str());
        i += 1;
    }
    out
}

/// The rows of the first `n` of the objects that can be deleted.
pub open spec fn delete_rows_text(infos: Seq<ObjectInfoView>, n: int) -> Seq<char>
    decreases n,
{
    if n <= 0 {
        Seq::empty()
    } else {
        delete_rows_text(infos, n - 1) + delete_row_text(infos[n - 1])
    }
}

fn delete_rows(objects: &Vec<ObjectInfo>) -> (r: String)
    ensures
        r@ == delete_rows_text(infos_of(objects@), objects@.len() as int),
{
    let ghost infos = infos_of(objects@);
    let mut out = String::new();
    let mut i: usize = 0;
    while i < objects.len()
        invariant
            i <= objects@.len(),
            infos == infos_of(objects@),
            out@ == delete_rows_text(infos, i as int),
        decreases objects@.len() - i,
    {
        assert(infos[i as int] == objects@[i as int]@);
        let row = delete_row(&objects[i]);
        out.append(row.as_str());
        i += 1;
    }
    out
}

/// The rows of the first `n` of the objects.
pub open spec fn object_rows_text(infos: Seq<ObjectInfoView>, n: int) -> Seq<char>
    decreases n,
{
    if n <= 0 {
        Seq::empty()
    } else {
        object_rows_text(infos, n - 1) + object_row_text(infos[n - 1])
    }
}

fn object_rows(objects: &Vec<ObjectInfo>) -> (r: String)
    ensures
        r@ == object_rows_text(infos_of(objects@), objects@.len() as int),
{
    let ghost infos = infos_of(objects@);
    let mut out = String::new();
    let mut i: usize = 0;
    while i < objects.len()
        invariant
            i <= objects@.len(),
            infos == infos_of(objects@),
            out@ == object_rows_text(infos, i as int),
        decreases objects@.len() - i,
    {
        assert(infos[i as int] == objects@[i as int]@);
        let row = object_row(&objects[i]);
        out.append(row.as_str());
        i += 1;
    }
    out
}

/// The list of the objects that can be fetched.
pub open spec fn download_text(infos: Seq<ObjectInfoView>) -> Seq<char> {
    let rows = download_rows_text(infos, infos.len() as int);
    let list = if infos.len() == 0 {
        "<div class='empty'>暂无对象，请先上传</div>"@
    } else {
        DOWNLOAD_TABLE@ + rows + "</table>"@
    };
    list + "<a class='btn-back' href='/manage'>返回</a>"@
}

/// Lists the objects that can be fetched.
pub fn download_body(objects: &Vec<ObjectInfo>) -> (r: String)
    ensures
        r@ == download_text(infos_of(objects@)),
{
    assert(infos_of(objects@).len() == objects@.len());
    let rows = download_rows(objects);
    let mut out = String::new();
    if objects.len() == 0 {
        out = "<div class='empty'>暂无对象，请先上传</div>".to_owned();
    } else {
        out = DOWNLOAD_TABLE.to_owned();
        out.append(rows.as_str());
        out.append("</table>");
    }
    out.append("<a class='btn-back' href='/manage'>返回</a>");
    out
}

/// The list of the objects that can be deleted.
pub open spec fn delete_text(infos: Seq<ObjectInfoView>) -> Seq<char> {
    let rows = if infos.len() == 0 {
        EMPTY_DELETE@
    } else {
        delete_rows_text(infos, infos.len() as int)
    };
    DELETE_TABLE@ + rows + DELETE_TABLE_END@
}

/// Lists the objects that can be deleted.
pub fn delete_body(objects: &Vec<ObjectInfo>) -> (r: String)
    ensures
        r@ == delete_text(infos_of(objects@)),
{
    assert(infos_of(objects@).len() == objects@.len());
    let rows = if objects.len() == 0 {
        EMPTY_DELETE.to_owned()
    } else {
        delete_rows(objects)
    };
    let mut out = DELETE_TABLE.to_owned();
    out.append(rows.as_str());
    out.append(DELETE_TABLE_END);
    out
}

/// A condition of a search, or what stands for one that is not given.
pub open spec fn given(value: Option<Seq<char>>, default: Seq<char>) -> Seq<char> {
    match value {
        Some(s) => s,
        None => default,
    }
}

fn shown<'a>(value: &'a Option<String>, default: &'a str) -> (r: &'a str)
    ensures
        r@ == given(option_view(*value), default@),
{
    match value {
        Some(s) => s.as_str(),
        None => default,
    }
}

/// What was searched for.
pub open spec fn query_text(
    name: Option<Seq<char>>,
    tag: Option<Seq<char>>,
    kind: Option<Seq<char>>,
) -> Seq<char> {
    "name="@ + given(name, "—"@) + " tag="@ + given(tag, "—"@) + " type="@
        + given(kind, "—"@)
}

fn query_line(name: &Option<String>, tag: &Option<String>, kind: &Option<String>) -> (r: String)
    ensures
        r@ == query_text(option_view(*name), option_view(*tag), option_view(*kind)),
{
    let mut out = "name=".to_owned();
    out.append(shown(name, "—"));
    out.append(" tag=");
    out.append(shown(tag, "—"));
    out.append(" type=");
    out.append(shown(kind, "—"));
    out
}

/// What a search found.
pub open spec fn search_text(
    name: Option<Seq<char>>,
    tag: Option<Seq<char>>,
    kind: Option<Seq<char>>,
    infos: Seq<ObjectInfoView>,
) -> Seq<char> {
    let rows = if infos.len() == 0 {
        EMPTY_SEARCH@
    } else {
        object_rows_text(infos, infos.len() as int)
    };
    SEARCH_NAME@ + given(name, ""@) + SEARCH_TAG@ + given(tag, ""@) + SEARCH_TYPE@
        + given(kind, ""@) + SEARCH_QUERY@ + query_text(name, tag, kind) + " | 找到 "@
        + decimal(infos.len()) + SEARCH_TABLE@ + rows + SEARCH_END@
}

/// Shows what a search found.
pub fn search_body(
    name: &Option<String>,
    tag: &Option<String>,
    kind: &Option<String>,
    objects: &Vec<ObjectInfo>,
) -> (r: String)
    ensures
        r@ == search_text(
            option_view(*name),
            option_view(*tag),
            option_view(*kind),
            infos_of(objects@),
        ),
{
    assert(infos_of(objects@).len() == objects@.len());
    let rows = if objects.len() == 0 {
        EMPTY_SEARCH.to_owned()
    } else {
        object_rows(objects)
    };
    let query = query_line(name, tag, kind);
    let mut out = SEARCH_NAME.to_owned();
    out.append(shown(name, ""));
    out.append(SEARCH_TAG);
    out.append(shown(tag, ""));
    out.append(SEARCH_TYPE);
    out.append(shown(kind, ""));
    out.append(SEARCH_QUERY);
    out.append(query.as_str());
    out.append(" | 找到 ");
    push_decimal(&mut out, objects.len() as u64);
    out.append(SEARCH_TABLE);
    out.append(rows.as_str());
    out.append(SEARCH_END);
    out
}

/// The number, but at least two.
pub open spec fn at_least_two(n: nat) -> nat {
    if n < 2 {
        2
    } else {
        n
    }
}

/// How much of the store is used, in percent.
pub open spec fn used_percent(s: StoreView) -> Seq<char> {
    percent_text(
        ((s.sb.total_blocks - s.sb.free_blocks) * s.sb.block_size) as nat,
        (s.sb.total_blocks * s.sb.block_size) as nat,
    )
}

/// How many of the accesses to the cache were hits, in percent.
pub open spec fn hit_percent(c: CacheView) -> Seq<char> {
    percent_text(c.hits as nat, (c.hits + c.misses) as nat)
}

/// How many of the accesses to the cache were hits, in percent with two decimals.
pub open spec fn exact_hit_percent(c: CacheView) -> Seq<char> {
    exact_percent_text(c.hits as nat, (c.hits + c.misses) as nat)
}

/// The page to manage the objects.
pub open spec fn manage_text(s: StoreView, c: CacheView, infos: Seq<ObjectInfoView>) -> Seq<char> {
    let rows = if infos.len() == 0 {
        EMPTY_MANAGE@
    } else {
        object_rows_text(infos, infos.len() as int)
    };
    STATS_START@ + decimal(s.sb.object_count as nat) + MANAGE_USED@ + used_percent(s)
        + MANAGE_CAPACITY@ + decimal(c.contents.capacity) + MANAGE_HITS@ + hit_percent(c)
        + MANAGE_FORMS@ + decimal(c.contents.capacity) + MANAGE_RESIZE@
        + decimal(at_least_two(c.contents.capacity)) + MANAGE_SEARCH@
        + decimal(s.sb.object_count as nat) + MANAGE_TABLE@ + rows + MANAGE_USE@
        + decimal((s.sb.total_blocks - s.sb.free_blocks) as nat) + " / "@
        + decimal(s.sb.total_blocks as nat) + " 块（"@ + scaled_text(s.sb.block_size as nat, 3)
        + " 每块）</p>"@
}

/// Makes the page to manage the objects.
pub fn manage_body(
    store: &ObjectStorage,
    cache: &ObjectCache,
    objects: &Vec<ObjectInfo>,
) -> (r: String)
    requires
        store@.operable(),
        store@.sb.free_blocks <= store@.sb.total_blocks,
    ensures
        r@ == manage_text(store@, cache@, infos_of(objects@)),
{
    assert(infos_of(objects@).len() == objects@.len());
    proof {
        lemma_block_fits(store@, store@.sb.total_blocks as int);
    }
    let rows = if objects.len() == 0 {
        EMPTY_MANAGE.to_owned()
    } else {
        object_rows(objects)
    };
    let status = store.status();
    let stats = cache.stats();
    let capacity = cache.capacity();
    let used = show_percent(status.used_capacity, status.total_capacity as u128);
    let mut out = STATS_START.to_owned();
    push_decimal(&mut out, status.object_count);
    out.append(MANAGE_USED);
    out.append(used.as_str());
    out.append(MANAGE_CAPACITY);
    push_decimal(&mut out, capacity as u64);
    out.append(MANAGE_HITS);
    out.append(stats.rough_hit_rate().as_str());
    out.append(MANAGE_FORMS);
    push_decimal(&mut out, capacity as u64);
    out.append(MANAGE_RESIZE);
    push_decimal(&mut out, if capacity < 2 {
            2
        } else {
            capacity as u64
        });
    out.append(MANAGE_SEARCH);
    push_decimal(&mut out, status.object_count);
    out.append(MANAGE_TABLE);
    out.append(rows.as_str());
    out.append(MANAGE_USE);
    push_decimal(&mut out, status.used_blocks);
    out.append(" / ");
    push_decimal(&mut out, status.total_blocks);
    out.append(" 块（");
    out.append(fmt_bytes(status.block_size as u64).as_str());
    out.append(" 每块）</p>");
    out
}

/// The overview.
pub open spec fn dashboard_text(
    s: StoreView,
    c: CacheView,
    algorithm: CacheAlgorithmType,
    h: ShmHeader,
    uptime: u64,
) -> Seq<char> {
    let used_blocks = s.sb.total_blocks - s.sb.free_blocks;
    let used = used_blocks * s.sb.block_size;
    let total = s.sb.total_blocks * s.sb.block_size;
    STATS_START@ + uptime_text(uptime as nat) + DASH_OBJECTS@
        + decimal(s.sb.object_count as nat) + DASH_HITS@ + hit_percent(c) + DASH_ALGORITHM@
        + algorithm_name(algorithm) + DASH_STORAGE@ + scaled_text(used as nat, 3) + " / "@
        + scaled_text(total as nat, 3) + "（"@ + used_percent(s) + DASH_BAR@ + used_percent(s)
        + DASH_BLOCKS@
        + decimal(used_blocks as nat) + " 已用 / "@ + decimal(s.sb.total_blocks as nat) + " 总计（"@
        + scaled_text(s.sb.block_size as nat, 3) + DASH_COUNT@
        + decimal(s.sb.object_count as nat) + " / "@
        + decimal((s.sb.max_metadata_area_size / 256) as nat) + DASH_CACHE@
        + algorithm_name(algorithm) + DASH_ENTRIES@ + decimal(c.contents.items.len()) + " / "@
        + decimal(c.contents.capacity) + DASH_HIT_COUNTS@ + decimal(c.hits as nat) + " / "@
        + decimal(c.misses as nat) + DASH_EVICTIONS@ + decimal(c.evictions as nat) + DASH_RATE@
        + exact_hit_percent(c) + DASH_PAGES@ + decimal(h.free_pages as nat) + " / "@
        + decimal(h.num_pages as nat) + DASH_END@
}

/// Makes the overview.
pub fn dashboard_body(
    store: &ObjectStorage,
    cache: &ObjectCache,
    region: &[u8],
    uptime: u64,
) -> (r: String)
    requires
        store@.operable(),
        store@.sb.free_blocks <= store@.sb.total_blocks,
        region@.len() >= SHM_HEADER_SIZE,
    ensures
        r@ == dashboard_text(store@, cache@, cache.algorithm, ShmHeader::decode(region@), uptime),
{
    proof {
        lemma_block_fits(store@, store@.sb.total_blocks as int);
    }
    let status = store.status();
    let stats = cache.stats();
    let used = show_percent(status.used_capacity, status.total_capacity as u128);
    let mut out = STATS_START.to_owned();
    out.append(fmt_uptime(uptime).as_str());
    out.append(DASH_OBJECTS);
    push_decimal(&mut out, status.object_count);
    out.append(DASH_HITS);
    out.append(stats.rough_hit_rate().as_str());
    out.append(DASH_ALGORITHM);
    out.append(stats.algorithm.as_str());
    out.append(DASH_STORAGE);
    out.append(fmt_bytes(status.used_capacity).as_str());
    out.append(" / ");
    out.append(fmt_bytes(status.total_capacity).as_str());
    out.append("（");
    out.append(used.as_str());
    out.append(DASH_BAR);
    out.append(used.as_str());
    out.append(DASH_BLOCKS);
    push_decimal(&mut out, status.used_blocks);
    out.append(" 已用 / ");
    push_decimal(&mut out, status.total_blocks);
    out.append(" 总计（");
    out.append(fmt_bytes(status.block_size as u64).as_str());
    out.append(DASH_COUNT);
    push_decimal(&mut out, status.object_count);
    out.append(" / ");
    push_decimal(&mut out, status.max_objects);
    out.append(DASH_CACHE);
    out.append(stats.algorithm.as_str());
    out.append(DASH_ENTRIES);
    push_decimal(&mut out, stats.size as u64);
    out.append(" / ");
    push_decimal(&mut out, stats.capacity as u64);
    out.append(DASH_HIT_COUNTS);
    push_decimal(&mut out, stats.hits);
    out.append(" / ");
    push_decimal(&mut out, stats.misses);
    out.append(DASH_EVICTIONS);
    push_decimal(&mut out, stats.evictions);
    out.append(DASH_RATE);
    out.append(stats.hit_rate().as_str());
    out.append(DASH_PAGES);
    push_decimal(&mut out, SharedMemory::free_page_count(region) as u64);
    out.append(" / ");
    push_decimal(&mut out, SharedMemory::num_pages(region) as u64);
    out.append(DASH_END);
    out
}

} // verus!
