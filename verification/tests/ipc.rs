//! The ends of the connection.
use minios::ipc::{
    accept_step, worker_step, AcceptStep, IpcClient, IpcServer, Unconnected, Unheard, WorkerStep,
};

#[test]
fn a_missing_connection_is_explained() {
    let c = IpcClient::new("/tmp/a.sock");
    let said = |why: Unconnected| c.unconnected(&why).message();
    assert!(said(Unconnected::Missing)
        .ends_with("在 /tmp/a.sock 处未找到服务端套接字。服务端是否正在运行？"));
    assert!(said(Unconnected::Refused("no".to_string()))
        .ends_with("无法连接到服务端 /tmp/a.sock: no。服务端是否正在运行？"));
    assert!(said(Unconnected::Late)
        .ends_with("连接到服务端 /tmp/a.sock 超时（5 秒后）。服务端是否正在运行？"));
    assert!(said(Unconnected::Lost).ends_with("连接到服务端 /tmp/a.sock 失败（内部错误）。"));
}

#[test]
fn a_server_that_cannot_listen_is_explained() {
    let s = IpcServer::new("/tmp/a.sock");
    let said = |why: Unheard| s.unheard(&why).message();
    assert!(said(Unheard::Leftover("no".to_string()))
        .ends_with("无法删除已存在的套接字文件 /tmp/a.sock: no"));
    assert!(said(Unheard::Directory("no".to_string())).ends_with("无法创建套接字目录: no"));
    assert!(said(Unheard::Bind("no".to_string())).ends_with("无法绑定到 /tmp/a.sock: no"));
    assert!(said(Unheard::Share("no".to_string())).ends_with("无法克隆监听器: no"));
}

#[test]
fn a_server_has_at_least_one_worker() {
    let mut s = IpcServer::new("p");
    assert!(!s.is_running());
    assert_eq!(s.start(0), 1);
    assert!(s.is_running());
    assert_eq!(s.start(3), 3);
    assert_eq!(IpcServer::queue_depth(3), 6);
    s.stop();
    assert!(!s.is_running());
    assert_eq!(s.socket_path(), "p");
}

#[test]
fn workers_empty_the_queue_before_they_leave() {
    assert!(matches!(worker_step(true, true), WorkerStep::Serve));
    assert!(matches!(worker_step(true, false), WorkerStep::Serve));
    assert!(matches!(worker_step(false, true), WorkerStep::Look));
    assert!(matches!(worker_step(false, false), WorkerStep::Leave));
    assert!(matches!(accept_step(true, true), AcceptStep::Queue));
    assert!(matches!(accept_step(false, true), AcceptStep::Report));
    assert!(matches!(accept_step(true, false), AcceptStep::Leave));
    assert!(matches!(accept_step(false, false), AcceptStep::Leave));
}
