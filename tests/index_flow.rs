use anything::entry::{enrich_hits, CivilDate};
use anything::index_store::{IndexError, TantivyIndex};
use anything::indexer::{
    commit_batch, get_num_docs, index_add, index_commit, index_delete, index_files, index_list,
    index_search, plan_roots, BuildState, WalkEntry,
};
use anything::state::Vaultify;
use anything::tokenizer::{mixed_tokens, segmenter_for, Segmenter};
use anything::watcher::{FsEventKind, Sentry};
use std::path::Path;
use tantivy::collector::TopDocs;
use tantivy::query::QueryParser;
use tantivy::schema::{
    IndexRecordOption, Schema, TextFieldIndexing, TextOptions, Value, INDEXED, STORED,
};
use tantivy::tokenizer::{Token, TokenStream, Tokenizer};
use tantivy::{Index, TantivyDocument};
use tempfile::{Builder, NamedTempFile, TempDir};

#[derive(Clone)]
struct Mixed;

struct Tokens {
    tokens: Vec<Token>,
    at: usize,
}

impl TokenStream for Tokens {
    fn advance(&mut self) -> bool {
        if self.at < self.tokens.len() {
            self.at += 1;
            true
        } else {
            false
        }
    }

    fn token(&self) -> &Token {
        &self.tokens[self.at - 1]
    }

    fn token_mut(&mut self) -> &mut Token {
        &mut self.tokens[self.at - 1]
    }
}

impl Tokenizer for Mixed {
    type TokenStream<'a> = Tokens;

    fn token_stream<'a>(&'a mut self, text: &'a str) -> Tokens {
        let tokens = mixed_tokens(text)
            .into_iter()
            .map(|t| Token {
                offset_from: t.offset_from,
                offset_to: t.offset_to,
                position: t.position,
                text: t.text,
                position_length: 1,
            })
            .collect();
        Tokens { tokens, at: 0 }
    }
}

fn name_options() -> TextOptions {
    TextOptions::default().set_indexing_options(
        TextFieldIndexing::default()
            .set_tokenizer("mixed")
            .set_index_option(IndexRecordOption::WithFreqsAndPositions),
    )
}

fn open_store(dir: &Path) -> TantivyIndex {
    let mut builder = Schema::builder();
    builder.add_text_field("name", name_options());
    builder.add_bytes_field("path", INDEXED | STORED);
    let index = Index::create_in_dir(dir, builder.build()).unwrap();
    index.tokenizers().register("mixed", Mixed);
    TantivyIndex::new(&index).unwrap()
}

fn open_vault(dir: &Path) -> Vaultify {
    let file = dir.join("anything.redb").to_str().unwrap().to_string();
    Vaultify::setup(file, dir.join("tantivy").to_str().unwrap().to_string()).unwrap()
}

fn walk(root: &str) -> Vec<Option<WalkEntry>> {
    jwalk::WalkDir::new(root)
        .skip_hidden(false)
        .sort(true)
        .into_iter()
        .map(|e| {
            e.ok().map(|e| WalkEntry {
                file_name: e.file_name().to_str().unwrap().to_string(),
                path: e.path().to_str().unwrap().to_string(),
            })
        })
        .collect()
}

fn touch(dir: &Path, name: &str) -> NamedTempFile {
    Builder::new().prefix(name).rand_bytes(0).tempfile_in(dir).unwrap()
}

fn make_files(root: &Path, names: &[&str]) -> Vec<NamedTempFile> {
    names.iter().map(|n| touch(root, n)).collect()
}

fn make_dir(root: &Path, name: &str) -> TempDir {
    Builder::new().prefix(name).rand_bytes(0).tempdir_in(root).unwrap()
}

fn ends_with_each(hits: &[String], suffixes: &[&str]) -> bool {
    hits.len() == suffixes.len() && hits.iter().zip(suffixes).all(|(h, s)| h.ends_with(s))
}

#[test]
fn test_mixed_tokenizer_token_stream() {
    let chinese = "新型跨太平洋双赢大国关系，从一个胜利走向另一个胜利";
    assert_eq!(segmenter_for(chinese), Segmenter::Chinese);
    let tokens = mixed_tokens(chinese);
    assert!(!tokens.is_empty());
    assert!(tokens.iter().any(|t| t.text.chars().count() > 1));
    for t in &tokens {
        assert_eq!(&chinese[t.offset_from..t.offset_to], t.text);
    }

    let english = "Wins Come All Day Under Mickey Mouse.pdf";
    assert_eq!(segmenter_for(english), Segmenter::Simple);
    let words: Vec<String> = mixed_tokens(english).into_iter().map(|t| t.text).collect();
    assert_eq!(words, vec!["wins", "come", "all", "day", "under", "mickey", "mouse", "pdf"]);
    let positions: Vec<usize> = mixed_tokens(english).into_iter().map(|t| t.position).collect();
    assert_eq!(positions, vec![0, 1, 2, 3, 4, 5, 6, 7]);
}

#[test]
fn tokenizer_is_the_same_for_names_and_queries() {
    for s in ["北京欢迎你.md", "quarterly-sales-report.xlsx", "会议纪要_Meeting_Notes.txt", ""] {
        let a: Vec<(String, usize, usize, usize)> = mixed_tokens(s)
            .into_iter()
            .map(|t| (t.text, t.position, t.offset_from, t.offset_to))
            .collect();
        let b: Vec<(String, usize, usize, usize)> = mixed_tokens(s)
            .into_iter()
            .map(|t| (t.text, t.position, t.offset_from, t.offset_to))
            .collect();
        assert_eq!(a, b);
    }
}

#[test]
fn test_mixed_token_search() {
    let mut builder = Schema::builder();
    let name = builder.add_text_field("name", name_options().set_stored());
    let index = Index::create_in_ram(builder.build());
    index.tokenizers().register("mixed", Mixed);
    let texts = vec![
        "中文的原神.txt",
        "你好世界.docx",
        "这是一个测试文档.pdf",
        "北京欢迎你.md",
        "今天天气怎么样.txt",
        "我喜欢学习编程.rs",
        "人工智能的未来.html",
        "chinese_game_genshin.txt",
        "hello_world_demo.docx",
        "this_is_test_document.pdf",
        "welcome_to_beijing.md",
        "how_is_weather_today.txt",
        "i_love_learning_programming.rs",
        "future_of_artificial_intelligence.html",
    ];
    let mut writer: tantivy::IndexWriter = index.writer(50_000_000).unwrap();
    for text in texts {
        let mut doc = TantivyDocument::new();
        doc.add_text(name, text);
        writer.add_document(doc).unwrap();
    }
    writer.commit().unwrap();

    let searcher = index.reader().unwrap().searcher();
    let parser = QueryParser::for_index(&index, vec![name]);
    let names_for = |q: &str| -> Vec<String> {
        let query = parser.parse_query(q).unwrap();
        searcher
            .search(&query, &TopDocs::with_limit(10).order_by_score())
            .unwrap()
            .into_iter()
            .map(|(_, a)| {
                let d: TantivyDocument = searcher.doc(a).unwrap();
                d.get_first(name).and_then(|v| v.as_str()).unwrap().to_string()
            })
            .collect()
    };
    assert!(names_for("未来").contains(&"人工智能的未来.html".to_string()));
    assert!(names_for("world").contains(&"hello_world_demo.docx".to_string()));
}

fn generate_mock_files(root: &Path) -> (Vec<NamedTempFile>, usize) {
    let english = [
        "user_authentication.py",
        "database_connection_pool.js",
        "api_response_handler.ts",
        "unit_test_results.xml",
        "deployment_config.yaml",
        "error_log_analyzer.rb",
        "quarterly-sales-report.xlsx",
        "client-meeting-notes.docx",
        "marketing-campaign-analysis.pdf",
        "financial-budget-2025.csv",
        "hr-policy-updates.txt",
        "project-timeline-overview.pptx",
        "Research Methodology.pdf",
        "Literature Review Draft.docx",
        "Experiment Data Analysis.xlsx",
        "Conference Presentation.pptx",
        "Thesis Chapter 3.txt",
        "PhotoShoot_Beach2025.jpg",
        "video-editing-project.mp4",
        "Logo Design v2.ai",
        "music_composition_draft.mp3",
        "website-mockup-final.psd",
        "cv.pdf",
        "todo.txt",
        "notes.md",
        "log.txt",
        "db.sql",
        "comprehensive_annual_financial_report_with_detailed_quarterly_breakdown_and_future_projections_2025.xlsx",
        "complete_system_architecture_documentation_including_database_schema_and_api_specifications.pdf",
    ];
    let chinese = [
        "财务_季度报告.xlsx",
        "员工_绩效评估.docx",
        "市场_分析报告.pdf",
        "项目_进度跟踪.txt",
        "客户_反馈汇总.csv",
        "数学-微积分-笔记.pdf",
        "历史-论文-草稿.docx",
        "物理-实验-数据.xlsx",
        "化学-课件-第三章.pptx",
        "英语-词汇-整理.txt",
        "旅游 计划 2025.txt",
        "购物 清单 超市.md",
        "健身 训练 记录.xlsx",
        "读书 笔记 推荐.pdf",
        "菜谱 收藏 家常菜.docx",
        "用户认证_系统设计.py",
        "数据库-连接池.js",
        "API接口 文档.md",
        "测试用例_自动化.xml",
        "部署脚本-生产环境.sh",
        "摄影作品.集锦.2025.jpg",
        "视频剪辑.项目.文件.mp4",
        "设计稿.最终版本.ai",
        "音乐创作.demo.mp3",
        "简历.pdf",
        "待办.txt",
        "笔记.md",
        "日志.log",
        "备忘.txt",
        "公司全年财务状况详细分析报告包含各部门预算执行情况和下年度规划建议.xlsx",
        "软件系统完整技术文档包括架构设计数据库设计和接口规范说明.pdf",
        "市场调研报告涵盖用户需求分析竞争对手调研和产品定位策略建议.docx",
        "会议纪要_Meeting_Notes.txt",
        "产品规格_Product_Spec.pdf",
        "用户手册_User_Manual.docx",
        "API文档_Documentation.md",
        "测试报告_Test_Report.xml",
        "2025年度总结.txt",
        "第1季度报告.xlsx",
        "版本v2.1说明.md",
        "backup_20250529.sql",
        "日报_0529.txt",
        "项目(重要).txt",
        "文档[草稿].docx",
        "数据{临时}.csv",
        "备份@服务器.zip",
        "配置#生产.json",
    ];
    let mut made = make_files(root, &english);
    made.extend(make_files(root, &chinese));
    (made, english.len() + chinese.len())
}

#[test]
fn test_workflow() {
    let files = TempDir::new().unwrap();
    let state = TempDir::new().unwrap();
    let index_dir = TempDir::new().unwrap();
    let (_made, folder_num) = generate_mock_files(files.path());
    let temp_folder = files.path().to_str().unwrap();
    assert_eq!(folder_num, 76);
    assert!(!temp_folder.is_empty());

    let mut store = open_store(index_dir.path());
    let mut vault = open_vault(state.path());
    let remain_exclude_path: Vec<String> = vec!["None".to_string()];
    let mut count_total: u64 = 0;
    let entries = walk(temp_folder);
    assert_eq!(index_files(&mut store, &mut vault, &entries, &remain_exclude_path, &mut count_total), Ok(0));
    assert_eq!(get_num_docs(&store), Ok(77));

    for (name, left) in [
        ("购物 清单 超市.md", 76),
        ("会议纪要_Meeting_Notes.txt", 75),
        ("化学-课件-第三章.pptx", 74),
        ("测试报告_Test_Report.xml", 73),
    ] {
        index_delete(&mut store, &format!("{}/{}", temp_folder, name)).unwrap();
        index_commit(&mut store).unwrap();
        assert_eq!(get_num_docs(&store), Ok(left));
    }

    assert!(!index_search(&store, "生产").unwrap().is_empty());
    assert!(!index_search(&store, "Draft").unwrap().is_empty());

    index_add(&mut store, &format!("{}/{}", temp_folder, "原神.pdf")).unwrap();
    index_add(&mut store, &format!("{}/{}", temp_folder, "genshin.pdf")).unwrap();
    index_commit(&mut store).unwrap();
    assert_eq!(get_num_docs(&store), Ok(75));

    let search_results = index_search(&store, "genshin").unwrap();
    assert_eq!(search_results[0], format!("{}/{}", temp_folder, "genshin.pdf"));
    let search_results = index_search(&store, "原神").unwrap();
    assert_eq!(search_results[0], format!("{}/{}", temp_folder, "原神.pdf"));

    let duplicate_path = format!("{}/{}", temp_folder, "rust_duplicate.pdf");
    index_add(&mut store, &duplicate_path).unwrap();
    index_commit(&mut store).unwrap();
    index_add(&mut store, &duplicate_path).unwrap();
    index_commit(&mut store).unwrap();
    assert_eq!(get_num_docs(&store), Ok(77));

    index_delete(&mut store, &duplicate_path).unwrap();
    index_commit(&mut store).unwrap();
    assert_eq!(get_num_docs(&store), Ok(75));
}

#[test]
fn latin_round_trip() {
    let files = TempDir::new().unwrap();
    let state = TempDir::new().unwrap();
    let index_dir = TempDir::new().unwrap();
    let _made = make_files(files.path(), &["quarterly-sales-report.xlsx", "cv.pdf", "todo.txt"]);
    let mut store = open_store(index_dir.path());
    let mut vault = open_vault(state.path());
    let mut count: u64 = 0;
    let entries = walk(files.path().to_str().unwrap());
    index_files(&mut store, &mut vault, &entries, &Vec::new(), &mut count).unwrap();
    assert!(ends_with_each(&index_search(&store, "cv").unwrap(), &["/cv.pdf"]));
    assert!(ends_with_each(
        &index_search(&store, "report").unwrap(),
        &["/quarterly-sales-report.xlsx"]
    ));
    assert_eq!(count, 4);
    assert_eq!(vault.get("indexed_files").unwrap(), "4");
}

#[test]
fn cjk_round_trip() {
    let files = TempDir::new().unwrap();
    let state = TempDir::new().unwrap();
    let index_dir = TempDir::new().unwrap();
    let _made = make_files(files.path(), &["北京欢迎你.md", "你好世界.docx", "人工智能的未来.html"]);
    let mut store = open_store(index_dir.path());
    let mut vault = open_vault(state.path());
    let mut count: u64 = 0;
    let entries = walk(files.path().to_str().unwrap());
    index_files(&mut store, &mut vault, &entries, &Vec::new(), &mut count).unwrap();
    assert!(index_search(&store, "北京").unwrap().iter().any(|p| p.ends_with("/北京欢迎你.md")));
    assert!(index_search(&store, "未来").unwrap().iter().any(|p| p.ends_with("/人工智能的未来.html")));
}

#[test]
fn added_name_token_finds_its_path() {
    let index_dir = TempDir::new().unwrap();
    let mut store = open_store(index_dir.path());
    let p = "/data/projects/budget-forecast.ods";
    index_add(&mut store, p).unwrap();
    assert_eq!(index_search(&store, "forecast"), Ok(vec![]));
    index_commit(&mut store).unwrap();
    assert_eq!(index_search(&store, "forecast"), Ok(vec![p.to_string()]));
    assert_eq!(index_search(&store, "budget"), Ok(vec![p.to_string()]));
}

#[test]
fn delete_twice_leaves_the_same_count() {
    let index_dir = TempDir::new().unwrap();
    let mut store = open_store(index_dir.path());
    index_add(&mut store, "/a/keep.txt").unwrap();
    index_add(&mut store, "/a/gone.txt").unwrap();
    index_commit(&mut store).unwrap();
    index_delete(&mut store, "/a/gone.txt").unwrap();
    index_commit(&mut store).unwrap();
    let once = get_num_docs(&store).unwrap();
    index_delete(&mut store, "/a/gone.txt").unwrap();
    index_commit(&mut store).unwrap();
    assert_eq!(get_num_docs(&store), Ok(once));
    assert_eq!(once, 1);
    assert_eq!(index_search(&store, "gone"), Ok(vec![]));
    assert_eq!(index_list(&store), Ok(vec!["/a/keep.txt".to_string()]));
}

#[test]
fn duplicate_adds_make_two_documents() {
    let index_dir = TempDir::new().unwrap();
    let mut store = open_store(index_dir.path());
    index_add(&mut store, "/d/twice.txt").unwrap();
    index_add(&mut store, "/d/twice.txt").unwrap();
    index_commit(&mut store).unwrap();
    assert_eq!(get_num_docs(&store), Ok(2));
    assert_eq!(index_search(&store, "twice").unwrap().len(), 2);
    index_delete(&mut store, "/d/twice.txt").unwrap();
    index_commit(&mut store).unwrap();
    assert_eq!(get_num_docs(&store), Ok(0));
}

#[test]
fn delete_only_reaches_earlier_additions() {
    let index_dir = TempDir::new().unwrap();
    let mut store = open_store(index_dir.path());
    index_delete(&mut store, "/d/late.txt").unwrap();
    index_add(&mut store, "/d/late.txt").unwrap();
    index_commit(&mut store).unwrap();
    assert_eq!(get_num_docs(&store), Ok(1));
}

#[test]
fn exclusion_keeps_paths_out() {
    let root = TempDir::new().unwrap();
    let state = TempDir::new().unwrap();
    let index_dir = TempDir::new().unwrap();
    let included_dir = make_dir(root.path(), "included");
    let excluded_dir = make_dir(root.path(), "excluded");
    let _x = touch(included_dir.path(), "x.txt");
    let _y = touch(excluded_dir.path(), "y.txt");
    let included = included_dir.path().to_str().unwrap().to_string();
    let excluded = excluded_dir.path().to_str().unwrap().to_string();
    let excludes = vec![excluded.clone()];

    let subfolders = vec![excluded.clone(), included.clone()];
    let plan = plan_roots(&subfolders, &excludes);
    assert_eq!(plan.skipped, vec![excluded.clone()]);
    assert!(plan.excludes.is_empty());

    let mut store = open_store(index_dir.path());
    let mut vault = open_vault(state.path());
    let mut count: u64 = 0;
    let entries = walk(root.path().to_str().unwrap());
    index_files(&mut store, &mut vault, &entries, &excludes, &mut count).unwrap();
    assert_eq!(index_search(&store, "x").unwrap().len(), 1);
    assert_eq!(index_search(&store, "y").unwrap().len(), 0);
    assert_eq!(index_search(&store, "excluded").unwrap().len(), 0);

    vault.set("indexed", "true".to_string()).unwrap();
    let mut sentry = Sentry::new();
    assert_eq!(sentry.arm(&vault), Ok(true));
    let y = format!("{}/y.txt", excluded);
    sentry
        .handle_event(&mut store, &mut vault, FsEventKind::Create, &vec![y.clone()], &vec![true], &excludes)
        .unwrap();
    assert_eq!(sentry.count(), 0);
    commit_batch(&mut store, &mut vault).unwrap();
    assert_eq!(index_search(&store, "y").unwrap().len(), 0);
}

#[test]
fn watcher_create_rename_remove() {
    let root = TempDir::new().unwrap();
    let state = TempDir::new().unwrap();
    let index_dir = TempDir::new().unwrap();
    let mut store = open_store(index_dir.path());
    let mut vault = open_vault(state.path());
    vault.set("indexed", "true".to_string()).unwrap();
    let a = root.path().join("a.txt").to_str().unwrap().to_string();
    let b = root.path().join("b.txt").to_str().unwrap().to_string();
    let none: Vec<String> = Vec::new();
    let mut sentry = Sentry::new();
    assert_eq!(sentry.arm(&vault), Ok(true));

    let file_a = touch(root.path(), "a.txt");
    let before = get_num_docs(&store).unwrap();
    sentry
        .handle_event(&mut store, &mut vault, FsEventKind::Create, &vec![a.clone()], &vec![true], &none)
        .unwrap();
    assert_eq!(sentry.count(), 1);
    commit_batch(&mut store, &mut vault).unwrap();
    assert_eq!(get_num_docs(&store), Ok(before + 1));
    assert_eq!(vault.get("indexed_files").unwrap(), (before + 1).to_string());

    file_a.persist(&b).unwrap();
    let file_b = tempfile::TempPath::from_path(&b);
    let paths = vec![a.clone(), b.clone()];
    let exists: Vec<bool> = paths.iter().map(|p| Path::new(p).exists()).collect();
    sentry
        .handle_event(&mut store, &mut vault, FsEventKind::Rename, &paths, &exists, &none)
        .unwrap();
    commit_batch(&mut store, &mut vault).unwrap();
    assert!(!index_search(&store, "a").unwrap().contains(&a));
    assert_eq!(index_search(&store, "b"), Ok(vec![b.clone()]));

    file_b.close().unwrap();
    assert!(!Path::new(&b).exists());
    sentry
        .handle_event(&mut store, &mut vault, FsEventKind::Remove, &vec![b.clone()], &vec![false], &none)
        .unwrap();
    commit_batch(&mut store, &mut vault).unwrap();
    assert_eq!(index_search(&store, "b"), Ok(vec![]));

    sentry
        .handle_event(&mut store, &mut vault, FsEventKind::Other, &vec![b.clone()], &vec![false], &none)
        .unwrap();
    assert_eq!(sentry.count(), 4);
}

#[test]
fn watcher_commits_every_thousand_changes() {
    let state = TempDir::new().unwrap();
    let index_dir = TempDir::new().unwrap();
    let mut store = open_store(index_dir.path());
    let mut vault = open_vault(state.path());
    let mut sentry = Sentry::new();
    assert_eq!(sentry.arm(&vault), Ok(false));
    assert!(!sentry.armed());
    vault.set("indexed", "true".to_string()).unwrap();
    assert_eq!(sentry.arm(&vault), Ok(true));
    let none: Vec<String> = Vec::new();
    for i in 0..999 {
        let p = format!("/w/file_{}.txt", i);
        sentry
            .handle_event(&mut store, &mut vault, FsEventKind::Create, &vec![p], &vec![true], &none)
            .unwrap();
    }
    assert_eq!(sentry.count(), 999);
    assert_eq!(get_num_docs(&store), Ok(0));
    sentry
        .handle_event(&mut store, &mut vault, FsEventKind::Create, &vec!["/w/last.txt".to_string()], &vec![true], &none)
        .unwrap();
    assert_eq!(sentry.count(), 0);
    assert_eq!(get_num_docs(&store), Ok(1000));
    assert_eq!(vault.get("indexed_files").unwrap(), "1000");
}

#[test]
fn bulk_count_is_published_and_grows() {
    let state = TempDir::new().unwrap();
    let index_dir = TempDir::new().unwrap();
    let mut store = open_store(index_dir.path());
    let mut vault = open_vault(state.path());
    let mut count: u64 = 0;
    let failures: Vec<Option<WalkEntry>> = (0..20_001).map(|_| None).collect();
    assert_eq!(index_files(&mut store, &mut vault, &failures, &Vec::new(), &mut count), Ok(0));
    assert_eq!(count, 20_001);
    let first: u64 = vault.get("indexed_files").unwrap().parse().unwrap();
    let more = vec![Some(WalkEntry { file_name: "z.txt".to_string(), path: "/z/z.txt".to_string() })];
    index_files(&mut store, &mut vault, &more, &Vec::new(), &mut count).unwrap();
    let second: u64 = vault.get("indexed_files").unwrap().parse().unwrap();
    assert_eq!(first, 20_001);
    assert_eq!(second, 20_002);
    assert_eq!(get_num_docs(&store), Ok(1));
}

#[test]
fn empty_query_clears_results() {
    let index_dir = TempDir::new().unwrap();
    let mut store = open_store(index_dir.path());
    index_add(&mut store, "/q/empty.txt").unwrap();
    index_commit(&mut store).unwrap();
    assert_eq!(index_search(&store, ""), Ok(vec![]));
    assert_eq!(index_search(&store, "   "), Ok(vec![]));
}

#[test]
fn query_syntax_characters_are_only_separators() {
    let index_dir = TempDir::new().unwrap();
    let mut store = open_store(index_dir.path());
    index_add(&mut store, "/q/name.txt").unwrap();
    index_commit(&mut store).unwrap();
    assert_eq!(index_search(&store, "name:"), Ok(vec!["/q/name.txt".to_string()]));
    assert_eq!(index_search(&store, "\"nothing\" +"), Ok(vec![]));
}

#[test]
fn path_without_a_name_is_refused() {
    let index_dir = TempDir::new().unwrap();
    let mut store = open_store(index_dir.path());
    assert_eq!(index_add(&mut store, "/"), Err(IndexError::Unnamed));
    assert_eq!(index_add(&mut store, ""), Err(IndexError::Unnamed));
    index_commit(&mut store).unwrap();
    assert_eq!(get_num_docs(&store), Ok(0));
}

#[test]
fn index_with_another_schema_is_refused() {
    let index_dir = TempDir::new().unwrap();
    let mut builder = Schema::builder();
    builder.add_text_field("name", name_options());
    builder.add_bytes_field("path", STORED);
    let index = Index::create_in_dir(index_dir.path(), builder.build()).unwrap();
    index.tokenizers().register("mixed", Mixed);
    assert!(matches!(TantivyIndex::new(&index), Err(IndexError::Corrupt)));
}

#[test]
fn whole_build_publishes_counts_and_progress() {
    let state = TempDir::new().unwrap();
    let index_dir = TempDir::new().unwrap();
    let mut store = open_store(index_dir.path());
    let mut vault = open_vault(state.path());
    let mut build = BuildState::begin(&vault, 2);
    let first: Vec<Option<WalkEntry>> = (0..20_000).map(|_| None).collect();
    build.build_root(&mut store, &mut vault, &first, &Vec::new()).unwrap();
    assert_eq!(vault.get("indexed_files").unwrap(), "20000");
    assert_eq!(vault.get("indexed_progress").unwrap(), "50.0");
    let second = vec![Some(WalkEntry { file_name: "z.txt".to_string(), path: "/z/z.txt".to_string() })];
    build.build_root(&mut store, &mut vault, &second, &Vec::new()).unwrap();
    assert_eq!(build.count(), 20_001);
    assert_eq!(vault.get("indexed_files").unwrap(), "20001");
    assert_eq!(vault.get("indexed_progress").unwrap(), "100.0");
    assert_eq!(get_num_docs(&store), Ok(1));
}

#[test]
fn stale_hit_is_still_returned() {
    let index_dir = TempDir::new().unwrap();
    let mut store = open_store(index_dir.path());
    let ghost = "/tmp/ghost.txt";
    index_add(&mut store, ghost).unwrap();
    index_commit(&mut store).unwrap();
    let hits = index_search(&store, "ghost").unwrap();
    assert_eq!(hits, vec![ghost.to_string()]);
    let today = CivilDate { year: 2025, month: 6, day: 1 };
    let metas = vec![None; hits.len()];
    let entries = enrich_hits(&hits, &metas, today);
    assert_eq!(entries[0].path, ghost);
    assert_eq!(entries[0].size, 0);
    assert_eq!(entries[0].kind, "txt");
}

#[test]
fn overlong_terms_are_left_out() {
    let index_dir = TempDir::new().unwrap();
    let mut store = open_store(index_dir.path());
    let long = "a".repeat(20_000);
    let path = format!("/long/{} notes.txt", long);
    index_add(&mut store, &path).unwrap();
    index_commit(&mut store).unwrap();
    assert_eq!(get_num_docs(&store), Ok(1));
    assert_eq!(index_search(&store, &long), Ok(vec![]));
    assert_eq!(index_search(&store, "notes"), Ok(vec![path.clone()]));
}

#[test]
fn unicode_white_space_alone_is_an_empty_query() {
    let index_dir = TempDir::new().unwrap();
    let mut store = open_store(index_dir.path());
    index_add(&mut store, "/w/space.txt").unwrap();
    index_commit(&mut store).unwrap();
    assert_eq!(index_search(&store, "\u{3000}\t\u{a0} "), Ok(vec![]));
    assert_eq!(index_search(&store, "\u{3000}space\u{2028}"), Ok(vec!["/w/space.txt".to_string()]));
}

#[test]
fn hits_are_capped_at_the_limit() {
    let index_dir = TempDir::new().unwrap();
    let mut store = open_store(index_dir.path());
    for i in 0..120 {
        index_add(&mut store, &format!("/many/report_{}.txt", i)).unwrap();
    }
    index_commit(&mut store).unwrap();
    assert_eq!(index_search(&store, "report").unwrap().len(), 100);
}
